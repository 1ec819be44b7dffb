//! The player-list decoder. The declared player count is an upper bound
//! only: when fewer bytes remain than one more full record needs, decoding
//! stops early with the records read so far, not with an error — a
//! deliberate tolerance for truncated responses from real servers.

use vstd::prelude::*;

use crate::errors::Error;
use crate::info::THE_SHIP_APP_ID;
use crate::reader::{le32, le32_i, str_bytes, str_end, utf8_lossy_of, ReadString, Reader};

verus! {

/// Leading byte of a player-list response.
pub const PLAYER_RESPONSE_HEADER: u8 = 0x44;

/// Extra per-player fields, present exactly when the server was identified
/// (by a prior info query) as application id `THE_SHIP_APP_ID`.
#[derive(Debug, PartialEq)]
pub struct TheShipInfo {
    /// The player's deaths.
    pub deaths: u32,

    /// The player's money.
    pub money: u32,
}

/// One connected player.
#[derive(Debug, PartialEq)]
pub struct Player {
    /// Index of the player record, starting from zero.
    pub index: u8,

    /// Name of the player.
    pub name: String,

    /// The player's score, usually kills.
    pub score: i32,

    /// Seconds the player has been connected, as the raw bits of the wire's
    /// 32-bit little-endian floating-point field.
    pub duration_bits: u32,

    /// Extra fields for the one game that sends them.
    pub the_ship: Option<TheShipInfo>,
}

pub ghost struct PlayerV {
    pub index: u8,
    pub name: Seq<char>,
    pub score: i32,
    pub duration_bits: u32,
    pub the_ship: Option<TheShipInfo>,
}

impl View for Player {
    type V = PlayerV;

    open spec fn view(&self) -> PlayerV {
        PlayerV {
            index: self.index,
            name: self.name@,
            score: self.score,
            duration_bits: self.duration_bits,
            the_ship: self.the_ship,
        }
    }
}

/// The records of a player vector, as ghost values.
pub open spec fn players_view(ps: Seq<Player>) -> Seq<PlayerV> {
    ps.map_values(|pl: Player| pl@)
}

/// The fewest bytes one more player record can occupy: index byte, empty
/// name (terminator only), score, duration, and the extra fields when the
/// server sends them.
pub open spec fn spec_min_player_size(is_the_ship: bool) -> int {
    if is_the_ship {
        18int
    } else {
        10int
    }
}

fn min_byte_size(is_the_ship: bool) -> (r: usize)
    ensures
        r as int == spec_min_player_size(is_the_ship),
{
    if is_the_ship {
        18
    } else {
        10
    }
}

/// Decodes one player record at `p`.
pub open spec fn decode_player(s: Seq<u8>, p: int, is_the_ship: bool) -> Result<
    (PlayerV, int),
    Error,
> {
    if p + 1 > s.len() {
        Err(Error::Truncated)
    } else {
        let index = s[p];
        let name = utf8_lossy_of(str_bytes(s, p + 1));
        let p1 = str_end(s, p + 1);
        if p1 + 8 > s.len() {
            Err(Error::Truncated)
        } else {
            let score = le32_i(s, p1);
            let duration_bits = le32(s, p1 + 4);
            if is_the_ship {
                if p1 + 16 > s.len() {
                    Err(Error::Truncated)
                } else {
                    Ok(
                        (
                            PlayerV {
                                index,
                                name,
                                score,
                                duration_bits,
                                the_ship: Some(
                                    TheShipInfo {
                                        deaths: le32(s, p1 + 8),
                                        money: le32(s, p1 + 12),
                                    },
                                ),
                            },
                            p1 + 16,
                        ),
                    )
                }
            } else {
                Ok(
                    (
                        PlayerV { index, name, score, duration_bits, the_ship: None },
                        p1 + 8,
                    ),
                )
            }
        }
    }
}

/// Decodes up to `n` player records from `p` on, stopping early — without an
/// error — as soon as fewer bytes remain than one more record needs.
pub open spec fn decode_players(s: Seq<u8>, p: int, n: nat, is_the_ship: bool) -> Result<
    Seq<PlayerV>,
    Error,
>
    decreases n,
{
    if n == 0 {
        Ok(Seq::empty())
    } else {
        match decode_player(s, p, is_the_ship) {
            Err(e) => Err(e),
            Ok((pl, p2)) => {
                if p2 + spec_min_player_size(is_the_ship) > s.len() {
                    Ok(seq![pl])
                } else {
                    match decode_players(s, p2, (n - 1) as nat, is_the_ship) {
                        Err(e) => Err(e),
                        Ok(rest) => Ok(seq![pl] + rest),
                    }
                }
            },
        }
    }
}

/// What decoding a player-list payload yields. The payload starts with the
/// response-type byte, then the declared count, then the records.
pub open spec fn decode_player_list(s: Seq<u8>, is_the_ship: bool) -> Result<Seq<PlayerV>, Error> {
    if s.len() < 1 {
        Err(Error::Truncated)
    } else if s[0] != PLAYER_RESPONSE_HEADER {
        Err(Error::InvalidHeader { expected: PLAYER_RESPONSE_HEADER, found: s[0] })
    } else if s.len() < 2 {
        Err(Error::Truncated)
    } else {
        decode_players(s, 2, s[1] as nat, is_the_ship)
    }
}

impl Player {
    /// Decodes a player-list payload, the bytes from the response-type byte
    /// on. The caller says whether the server was identified as the one game
    /// with extra per-player fields; this decoder never infers that itself.
    pub fn list_from_bytes(payload: Vec<u8>, is_the_ship: bool) -> (r: Result<Vec<Player>, Error>)
        ensures
            match r {
                Ok(players) => decode_player_list(payload@, is_the_ship) == Ok::<
                    Seq<PlayerV>,
                    Error,
                >(players_view(players@)),
                Err(e) => decode_player_list(payload@, is_the_ship) == Err::<Seq<PlayerV>, Error>(
                    e,
                ),
            },
    {
        let ghost s = payload@;
        let mut rd = Reader::new(payload);
        let header = match rd.read_u8() {
            Ok(b) => b,
            Err(e) => return Err(e),
        };
        if header != PLAYER_RESPONSE_HEADER {
            return Err(Error::InvalidHeader { expected: PLAYER_RESPONSE_HEADER, found: header });
        }
        let total = match rd.read_u8() {
            Ok(b) => b,
            Err(e) => return Err(e),
        };
        let mut players: Vec<Player> = Vec::new();
        proof {
            assert(players_view(players@) =~= Seq::<PlayerV>::empty());
            let whole = decode_players(s, 2, total as nat, is_the_ship);
            if whole is Ok {
                assert(players_view(players@) + whole->Ok_0 =~= whole->Ok_0);
            }
        }
        let mut i: u8 = 0;
        let mut stop = false;
        while i < total && !stop
            invariant
                s == payload@,
                s == rd.bytes(),
                rd.wf(),
                i <= total,
                2 <= s.len(),
                s[0] == PLAYER_RESPONSE_HEADER,
                s[1] == total,
                !stop ==> decode_players(s, 2, total as nat, is_the_ship) == (match decode_players(
                    s,
                    rd.position(),
                    (total - i) as nat,
                    is_the_ship,
                ) {
                    Ok(rest) => Ok::<Seq<PlayerV>, Error>(players_view(players@) + rest),
                    Err(e) => Err::<Seq<PlayerV>, Error>(e),
                }),
                stop ==> decode_players(s, 2, total as nat, is_the_ship) == Ok::<
                    Seq<PlayerV>,
                    Error,
                >(players_view(players@)),
            decreases total - i,
        {
            let ghost p_entry = rd.position();
            let ghost n_entry = (total - i) as nat;
            let index = match rd.read_u8() {
                Ok(v) => v,
                Err(e) => return Err(e),
            };
            let name = match rd.read_string() {
                Ok(v) => v,
                Err(e) => return Err(e),
            };
            let score = match rd.read_i32_le() {
                Ok(v) => v,
                Err(e) => return Err(e),
            };
            let duration_bits = match rd.read_u32_le() {
                Ok(v) => v,
                Err(e) => return Err(e),
            };
            let the_ship = if is_the_ship {
                let deaths = match rd.read_u32_le() {
                    Ok(v) => v,
                    Err(e) => return Err(e),
                };
                let money = match rd.read_u32_le() {
                    Ok(v) => v,
                    Err(e) => return Err(e),
                };
                Some(TheShipInfo { deaths, money })
            } else {
                None
            };
            let pl = Player { index, name, score, duration_bits, the_ship };
            proof {
                assert(decode_player(s, p_entry, is_the_ship) == Ok::<(PlayerV, int), Error>(
                    (pl@, rd.position()),
                ));
            }
            let ghost prev_players = players@;
            players.push(pl);
            proof {
                assert(players_view(players@) =~= players_view(prev_players) + seq![pl@]);
                let rest = decode_players(s, rd.position(), (n_entry - 1) as nat, is_the_ship);
                if rest is Ok {
                    assert(players_view(prev_players) + (seq![pl@] + rest->Ok_0)
                        =~= players_view(players@) + rest->Ok_0);
                }
            }
            if rd.remaining() < min_byte_size(is_the_ship) {
                stop = true;
            }
            i = i + 1;
        }
        proof {
            if !stop {
                assert(players_view(players@) + Seq::<PlayerV>::empty() =~= players_view(
                    players@,
                ));
            }
        }
        Ok(players)
    }
}

/// Every record of a decoded player list carries the extra fields exactly
/// when the server was identified as the one game that sends them.
pub proof fn lemma_players_ship_iff(s: Seq<u8>, p: int, n: nat, is_the_ship: bool)
    requires
        decode_players(s, p, n, is_the_ship) is Ok,
    ensures
        forall|k: int|
            0 <= k < decode_players(s, p, n, is_the_ship)->Ok_0.len() ==> (decode_players(
                s,
                p,
                n,
                is_the_ship,
            )->Ok_0[k].the_ship is Some <==> is_the_ship),
    decreases n,
{
    if n > 0 {
        let step = decode_player(s, p, is_the_ship);
        if step is Ok {
            let (pl, p2) = step->Ok_0;
            if !(p2 + spec_min_player_size(is_the_ship) > s.len()) {
                lemma_players_ship_iff(s, p2, (n - 1) as nat, is_the_ship);
            }
        }
    }
}

/// Every record of a decoded player list carries the extra fields exactly
/// when the caller said the server sends them.
pub proof fn lemma_player_list_ship_iff(s: Seq<u8>, is_the_ship: bool)
    requires
        decode_player_list(s, is_the_ship) is Ok,
    ensures
        forall|k: int|
            0 <= k < decode_player_list(s, is_the_ship)->Ok_0.len() ==> (decode_player_list(
                s,
                is_the_ship,
            )->Ok_0[k].the_ship is Some <==> is_the_ship),
{
    lemma_players_ship_iff(s, 2, s[1] as nat, is_the_ship);
}

/// The truncation tolerance: once a full record has been read and fewer
/// bytes remain than even the smallest further record needs, the list closes
/// with what was read — no error — however many records the declared count
/// still promises.
pub proof fn lemma_players_truncation_tolerance(s: Seq<u8>, p: int, n: nat, is_the_ship: bool)
    requires
        n >= 1,
        decode_player(s, p, is_the_ship) is Ok,
        decode_player(s, p, is_the_ship)->Ok_0.1 + spec_min_player_size(is_the_ship) > s.len(),
    ensures
        decode_players(s, p, n, is_the_ship) == Ok::<Seq<PlayerV>, Error>(
            seq![decode_player(s, p, is_the_ship)->Ok_0.0],
        ),
{
}

} // verus!
