//! The info-response decoder: a fixed field order, an optional extension for
//! one specific game, a trailing extra-data-flags byte that older servers
//! omit, and five flag-gated optional fields in a fixed wire order.

use vstd::prelude::*;

use crate::errors::Error;
use crate::reader::{
    le16_i, str_bytes, str_end, utf8_lossy_of, ReadString, Reader,
};

verus! {

/// Leading byte of an info response.
pub const INFO_RESPONSE_HEADER: u8 = 0x49;

/// Application id of the one game whose responses carry extra fields.
pub const THE_SHIP_APP_ID: i16 = 2400;

#[derive(Debug, PartialEq)]
pub enum ServerType {
    Dedicated,
    NonDedicated,
    SourceTVProxy,
}

/// The server type a given byte decodes to.
pub open spec fn spec_server_type(byte: u8) -> Result<ServerType, Error> {
    if byte == 0x64 {  // 'd'
        Ok(ServerType::Dedicated)
    } else if byte == 0x6C {  // 'l'
        Ok(ServerType::NonDedicated)
    } else if byte == 0x70 {  // 'p'
        Ok(ServerType::SourceTVProxy)
    } else {
        Err(Error::InvalidServerType)
    }
}

impl ServerType {
    pub fn from_u8(byte: u8) -> (r: Result<Self, Error>)
        ensures
            r == spec_server_type(byte),
    {
        match byte {
            0x64 => Ok(Self::Dedicated),
            0x6C => Ok(Self::NonDedicated),
            0x70 => Ok(Self::SourceTVProxy),
            _ => Err(Error::InvalidServerType),
        }
    }
}

#[derive(Debug, PartialEq)]
pub enum ServerEnvironment {
    Linux,
    Windows,
    Mac,
}

/// The server environment a given byte decodes to.
pub open spec fn spec_server_environment(byte: u8) -> Result<ServerEnvironment, Error> {
    if byte == 0x6C {  // 'l'
        Ok(ServerEnvironment::Linux)
    } else if byte == 0x77 {  // 'w'
        Ok(ServerEnvironment::Windows)
    } else if byte == 0x6D || byte == 0x6F {  // 'm' or 'o'
        Ok(ServerEnvironment::Mac)
    } else {
        Err(Error::InvalidServerEnvironment)
    }
}

impl ServerEnvironment {
    pub fn from_u8(byte: u8) -> (r: Result<Self, Error>)
        ensures
            r == spec_server_environment(byte),
    {
        match byte {
            0x6C => Ok(Self::Linux),
            0x77 => Ok(Self::Windows),
            0x6D | 0x6F => Ok(Self::Mac),
            _ => Err(Error::InvalidServerEnvironment),
        }
    }
}

#[derive(Debug, PartialEq)]
pub enum TheShipMode {
    Hunt,
    Elimination,
    Duel,
    Deathmatch,
    VIPTeam,
    TeamElimination,
}

/// The game mode a given byte decodes to.
pub open spec fn spec_ship_mode(byte: u8) -> Result<TheShipMode, Error> {
    if byte == 0 {
        Ok(TheShipMode::Hunt)
    } else if byte == 1 {
        Ok(TheShipMode::Elimination)
    } else if byte == 2 {
        Ok(TheShipMode::Duel)
    } else if byte == 3 {
        Ok(TheShipMode::Deathmatch)
    } else if byte == 4 {
        Ok(TheShipMode::VIPTeam)
    } else if byte == 5 {
        Ok(TheShipMode::TeamElimination)
    } else {
        Err(Error::InvalidResponse)
    }
}

impl TheShipMode {
    pub fn from_u8(byte: u8) -> (r: Result<Self, Error>)
        ensures
            r == spec_ship_mode(byte),
    {
        match byte {
            0 => Ok(Self::Hunt),
            1 => Ok(Self::Elimination),
            2 => Ok(Self::Duel),
            3 => Ok(Self::Deathmatch),
            4 => Ok(Self::VIPTeam),
            5 => Ok(Self::TeamElimination),
            _ => Err(Error::InvalidResponse),
        }
    }
}

/// Extra fields present exactly when the application id is
/// `THE_SHIP_APP_ID`.
#[derive(Debug, PartialEq)]
pub struct TheShipInfo {
    /// The game mode.
    pub mode: TheShipMode,

    /// Witnesses needed to have a player arrested.
    pub witnesses: u8,

    /// Seconds before a witnessed player is arrested.
    pub duration: u8,
}

/// The spectator relay, present when its extra-data flag is set.
#[derive(Debug, PartialEq)]
pub struct SourceTV {
    /// Spectator port number.
    pub port: i16,

    /// Name of the spectator server.
    pub name: String,
}

pub ghost struct SourceTVV {
    pub port: i16,
    pub name: Seq<char>,
}

impl View for SourceTV {
    type V = SourceTVV;

    open spec fn view(&self) -> SourceTVV {
        SourceTVV { port: self.port, name: self.name@ }
    }
}

/// A decoded info response.
#[derive(Debug, PartialEq)]
pub struct Info {
    /// Protocol version used by the server.
    pub protocol: u8,

    /// Name of the server.
    pub name: String,

    /// Map the server has currently loaded.
    pub map: String,

    /// Name of the folder containing the game files.
    pub folder: String,

    /// Full name of the game.
    pub game: String,

    /// Numeric application id of the game.
    pub app_id: i16,

    /// Number of players on the server.
    pub players: u8,

    /// Maximum number of players the server reports it can hold.
    pub max_players: u8,

    /// Number of bots on the server.
    pub bots: u8,

    /// The type of server.
    pub server_type: ServerType,

    /// The operating system of the server.
    pub environment: ServerEnvironment,

    /// Whether the server requires a password.
    pub password: bool,

    /// Whether the server uses anti-cheat.
    pub vac: bool,

    /// Extra fields, present exactly when `app_id` is `THE_SHIP_APP_ID`.
    pub the_ship: Option<TheShipInfo>,

    /// Version of the game installed on the server.
    pub version: String,

    /// Extra-data flags: which optional trailing fields are present.
    pub edf: u8,

    /// The server's game port number.
    pub port: Option<i16>,

    /// The server's 64-bit platform account id.
    pub steam_id: Option<u64>,

    /// The spectator relay.
    pub sourcetv_info: Option<SourceTV>,

    /// Tags that describe the game according to the server.
    pub keywords: Option<String>,

    /// The server's 64-bit game id.
    pub game_id: Option<u64>,
}

pub ghost struct InfoV {
    pub protocol: u8,
    pub name: Seq<char>,
    pub map: Seq<char>,
    pub folder: Seq<char>,
    pub game: Seq<char>,
    pub app_id: i16,
    pub players: u8,
    pub max_players: u8,
    pub bots: u8,
    pub server_type: ServerType,
    pub environment: ServerEnvironment,
    pub password: bool,
    pub vac: bool,
    pub the_ship: Option<TheShipInfo>,
    pub version: Seq<char>,
    pub edf: u8,
    pub port: Option<i16>,
    pub steam_id: Option<u64>,
    pub sourcetv_info: Option<SourceTVV>,
    pub keywords: Option<Seq<char>>,
    pub game_id: Option<u64>,
}

impl View for Info {
    type V = InfoV;

    open spec fn view(&self) -> InfoV {
        InfoV {
            protocol: self.protocol,
            name: self.name@,
            map: self.map@,
            folder: self.folder@,
            game: self.game@,
            app_id: self.app_id,
            players: self.players,
            max_players: self.max_players,
            bots: self.bots,
            server_type: self.server_type,
            environment: self.environment,
            password: self.password,
            vac: self.vac,
            the_ship: self.the_ship,
            version: self.version@,
            edf: self.edf,
            port: self.port,
            steam_id: self.steam_id,
            sourcetv_info: match self.sourcetv_info {
                Some(stv) => Some(stv@),
                None => None,
            },
            keywords: match self.keywords {
                Some(k) => Some(k@),
                None => None,
            },
            game_id: self.game_id,
        }
    }
}

/// The block of fixed-width fields that follows the four leading strings:
/// application id, player counts, bot count, server type and environment,
/// password and anti-cheat flags.
pub ghost struct FixedV {
    pub app_id: i16,
    pub players: u8,
    pub max_players: u8,
    pub bots: u8,
    pub server_type: ServerType,
    pub environment: ServerEnvironment,
    pub password: bool,
    pub vac: bool,
}

/// Decodes the fixed-width block at `p`, yielding it with the position that
/// follows. Bytes are consumed in order, so a buffer that ends inside the
/// block is truncation, except that an invalid server-type or environment
/// byte already present reports itself first.
pub open spec fn decode_fixed(s: Seq<u8>, p: int) -> Result<(FixedV, int), Error> {
    if p + 6 > s.len() {
        Err(Error::Truncated)
    } else {
        match spec_server_type(s[p + 5]) {
            Err(e) => Err(e),
            Ok(server_type) => if p + 7 > s.len() {
                Err(Error::Truncated)
            } else {
                match spec_server_environment(s[p + 6]) {
                    Err(e) => Err(e),
                    Ok(environment) => if p + 9 > s.len() {
                        Err(Error::Truncated)
                    } else {
                        Ok(
                            (
                                FixedV {
                                    app_id: le16_i(s, p),
                                    players: s[p + 2],
                                    max_players: s[p + 3],
                                    bots: s[p + 4],
                                    server_type,
                                    environment,
                                    password: s[p + 7] != 0,
                                    vac: s[p + 8] != 0,
                                },
                                p + 9,
                            ),
                        )
                    },
                }
            },
        }
    }
}

/// Decodes the game-specific extension at `p`: present exactly when the
/// application id names that game, never gated by the extra-data flags.
pub open spec fn decode_ship(s: Seq<u8>, p: int, app_id: i16) -> Result<
    (Option<TheShipInfo>, int),
    Error,
> {
    if app_id != THE_SHIP_APP_ID {
        Ok((None::<TheShipInfo>, p))
    } else if p + 1 > s.len() {
        Err(Error::Truncated)
    } else {
        match spec_ship_mode(s[p]) {
            Err(e) => Err(e),
            Ok(mode) => if p + 3 > s.len() {
                Err(Error::Truncated)
            } else {
                Ok((Some(TheShipInfo { mode, witnesses: s[p + 1], duration: s[p + 2] }), p + 3))
            },
        }
    }
}

/// The optional trailing fields, each present exactly when its flag bit is
/// set.
pub ghost struct EdfV {
    pub port: Option<i16>,
    pub steam_id: Option<u64>,
    pub sourcetv_info: Option<SourceTVV>,
    pub keywords: Option<Seq<char>>,
    pub game_id: Option<u64>,
}

/// Decodes the flag-gated trailing fields at `p`, in their fixed wire order:
/// game port, account id, spectator relay, keywords, game id. A field whose
/// bit is clear is skipped, never reordered; running out of bytes inside a
/// flagged fixed-width field is truncation.
pub open spec fn decode_edf_fields(s: Seq<u8>, p: int, edf: u8) -> Result<(EdfV, int), Error> {
    if edf & 0x80 != 0 && p + 2 > s.len() {
        Err(Error::Truncated)
    } else {
        let port = if edf & 0x80 != 0 {
            Some(le16_i(s, p))
        } else {
            None::<i16>
        };
        let p1 = if edf & 0x80 != 0 {
            p + 2
        } else {
            p
        };
        if edf & 0x10 != 0 && p1 + 8 > s.len() {
            Err(Error::Truncated)
        } else {
            let steam_id = if edf & 0x10 != 0 {
                Some(crate::reader::le64(s, p1))
            } else {
                None::<u64>
            };
            let p2 = if edf & 0x10 != 0 {
                p1 + 8
            } else {
                p1
            };
            if edf & 0x40 != 0 && p2 + 2 > s.len() {
                Err(Error::Truncated)
            } else {
                let sourcetv_info = if edf & 0x40 != 0 {
                    Some(
                        SourceTVV {
                            port: le16_i(s, p2),
                            name: utf8_lossy_of(str_bytes(s, p2 + 2)),
                        },
                    )
                } else {
                    None::<SourceTVV>
                };
                let p3 = if edf & 0x40 != 0 {
                    str_end(s, p2 + 2)
                } else {
                    p2
                };
                let keywords = if edf & 0x20 != 0 {
                    Some(utf8_lossy_of(str_bytes(s, p3)))
                } else {
                    None::<Seq<char>>
                };
                let p4 = if edf & 0x20 != 0 {
                    str_end(s, p3)
                } else {
                    p3
                };
                if edf & 0x01 != 0 && p4 + 8 > s.len() {
                    Err(Error::Truncated)
                } else {
                    let game_id = if edf & 0x01 != 0 {
                        Some(crate::reader::le64(s, p4))
                    } else {
                        None::<u64>
                    };
                    let p5 = if edf & 0x01 != 0 {
                        p4 + 8
                    } else {
                        p4
                    };
                    Ok((EdfV { port, steam_id, sourcetv_info, keywords, game_id }, p5))
                }
            }
        }
    }
}

/// What decoding an info payload yields: the record, or the first error the
/// field order runs into. The payload starts with the response-type byte.
pub open spec fn decode_info(s: Seq<u8>) -> Result<InfoV, Error> {
    if s.len() < 1 {
        Err(Error::Truncated)
    } else if s[0] != INFO_RESPONSE_HEADER {
        Err(Error::InvalidHeader { expected: INFO_RESPONSE_HEADER, found: s[0] })
    } else if s.len() < 2 {
        Err(Error::Truncated)
    } else {
        let name = str_bytes(s, 2);
        let p_map = str_end(s, 2);
        let map = str_bytes(s, p_map);
        let p_folder = str_end(s, p_map);
        let folder = str_bytes(s, p_folder);
        let p_game = str_end(s, p_folder);
        let game = str_bytes(s, p_game);
        let p_fixed = str_end(s, p_game);
        match decode_fixed(s, p_fixed) {
            Err(e) => Err(e),
            Ok((fx, p_ship)) => match decode_ship(s, p_ship, fx.app_id) {
                Err(e) => Err(e),
                Ok((the_ship, p_version)) => {
                    let version = str_bytes(s, p_version);
                    let p_edf = str_end(s, p_version);
                    let edf = if p_edf < s.len() {
                        s[p_edf]
                    } else {
                        0
                    };
                    let p_fields = if p_edf < s.len() {
                        p_edf + 1
                    } else {
                        p_edf
                    };
                    match decode_edf_fields(s, p_fields, edf) {
                        Err(e) => Err(e),
                        Ok((ef, _p_end)) => Ok(
                            InfoV {
                                protocol: s[1],
                                name: utf8_lossy_of(name),
                                map: utf8_lossy_of(map),
                                folder: utf8_lossy_of(folder),
                                game: utf8_lossy_of(game),
                                app_id: fx.app_id,
                                players: fx.players,
                                max_players: fx.max_players,
                                bots: fx.bots,
                                server_type: fx.server_type,
                                environment: fx.environment,
                                password: fx.password,
                                vac: fx.vac,
                                the_ship,
                                version: utf8_lossy_of(version),
                                edf,
                                port: ef.port,
                                steam_id: ef.steam_id,
                                sourcetv_info: ef.sourcetv_info,
                                keywords: ef.keywords,
                                game_id: ef.game_id,
                            },
                        ),
                    }
                },
            },
        }
    }
}

impl Info {
    /// Decodes an info payload, the bytes from the response-type byte on.
    pub fn from_bytes(payload: Vec<u8>) -> (r: Result<Info, Error>)
        ensures
            match r {
                Ok(info) => decode_info(payload@) == Ok::<InfoV, Error>(info@),
                Err(e) => decode_info(payload@) == Err::<InfoV, Error>(e),
            },
    {
        let ghost s = payload@;
        let mut rd = Reader::new(payload);
        let header = match rd.read_u8() {
            Ok(b) => b,
            Err(e) => return Err(e),
        };
        if header != INFO_RESPONSE_HEADER {
            return Err(Error::InvalidHeader { expected: INFO_RESPONSE_HEADER, found: header });
        }
        let protocol = match rd.read_u8() {
            Ok(b) => b,
            Err(e) => return Err(e),
        };
        let name = match rd.read_string() {
            Ok(v) => v,
            Err(e) => return Err(e),
        };
        let map = match rd.read_string() {
            Ok(v) => v,
            Err(e) => return Err(e),
        };
        let folder = match rd.read_string() {
            Ok(v) => v,
            Err(e) => return Err(e),
        };
        let game = match rd.read_string() {
            Ok(v) => v,
            Err(e) => return Err(e),
        };
        let app_id = match rd.read_i16_le() {
            Ok(v) => v,
            Err(e) => return Err(e),
        };
        let players = match rd.read_u8() {
            Ok(v) => v,
            Err(e) => return Err(e),
        };
        let max_players = match rd.read_u8() {
            Ok(v) => v,
            Err(e) => return Err(e),
        };
        let bots = match rd.read_u8() {
            Ok(v) => v,
            Err(e) => return Err(e),
        };
        let server_type_b = match rd.read_u8() {
            Ok(v) => v,
            Err(e) => return Err(e),
        };
        let server_type = match ServerType::from_u8(server_type_b) {
            Ok(v) => v,
            Err(e) => return Err(e),
        };
        let environment_b = match rd.read_u8() {
            Ok(v) => v,
            Err(e) => return Err(e),
        };
        let environment = match ServerEnvironment::from_u8(environment_b) {
            Ok(v) => v,
            Err(e) => return Err(e),
        };
        let password_b = match rd.read_u8() {
            Ok(v) => v,
            Err(e) => return Err(e),
        };
        let vac_b = match rd.read_u8() {
            Ok(v) => v,
            Err(e) => return Err(e),
        };
        let the_ship = if app_id == THE_SHIP_APP_ID {
            let mode_b = match rd.read_u8() {
                Ok(v) => v,
                Err(e) => return Err(e),
            };
            let mode = match TheShipMode::from_u8(mode_b) {
                Ok(v) => v,
                Err(e) => return Err(e),
            };
            let witnesses = match rd.read_u8() {
                Ok(v) => v,
                Err(e) => return Err(e),
            };
            let duration = match rd.read_u8() {
                Ok(v) => v,
                Err(e) => return Err(e),
            };
            Some(TheShipInfo { mode, witnesses, duration })
        } else {
            None
        };
        let version = match rd.read_string() {
            Ok(v) => v,
            Err(e) => return Err(e),
        };
        let edf = if rd.remaining() > 0 {
            match rd.read_u8() {
                Ok(v) => v,
                Err(e) => return Err(e),
            }
        } else {
            0
        };
        let port = if edf & 0x80 != 0 {
            match rd.read_i16_le() {
                Ok(v) => Some(v),
                Err(e) => return Err(e),
            }
        } else {
            None
        };
        let steam_id = if edf & 0x10 != 0 {
            match rd.read_u64_le() {
                Ok(v) => Some(v),
                Err(e) => return Err(e),
            }
        } else {
            None
        };
        let sourcetv_info = if edf & 0x40 != 0 {
            let stv_port = match rd.read_i16_le() {
                Ok(v) => v,
                Err(e) => return Err(e),
            };
            let stv_name = match rd.read_string() {
                Ok(v) => v,
                Err(e) => return Err(e),
            };
            Some(SourceTV { port: stv_port, name: stv_name })
        } else {
            None
        };
        let keywords = if edf & 0x20 != 0 {
            match rd.read_string() {
                Ok(v) => Some(v),
                Err(e) => return Err(e),
            }
        } else {
            None
        };
        let game_id = if edf & 0x01 != 0 {
            match rd.read_u64_le() {
                Ok(v) => Some(v),
                Err(e) => return Err(e),
            }
        } else {
            None
        };
        Ok(
            Info {
                protocol,
                name,
                map,
                folder,
                game,
                app_id,
                players,
                max_players,
                bots,
                server_type,
                environment,
                password: password_b != 0,
                vac: vac_b != 0,
                the_ship,
                version,
                edf,
                port,
                steam_id,
                sourcetv_info,
                keywords,
                game_id,
            },
        )
    }

    /// Whether this server is the one game with the extra fields.
    pub fn is_the_ship(&self) -> (r: bool)
        ensures
            r == (self@.app_id == THE_SHIP_APP_ID),
    {
        self.app_id == THE_SHIP_APP_ID
    }
}

/// For every extra-data-flags byte, decoding the trailing fields consumes
/// exactly the flagged fields, in the fixed wire order — game port, account
/// id, spectator relay, keywords, game id — and yields exactly those: each
/// field is present if and only if its bit is set, its value is read at the
/// position the flagged fields before it dictate, and the cursor ends just
/// past the last flagged field.
pub proof fn lemma_edf_fields_exact(s: Seq<u8>, p: int, edf: u8)
    requires
        decode_edf_fields(s, p, edf) is Ok,
    ensures
        ({
            let (ef, p_end) = decode_edf_fields(s, p, edf)->Ok_0;
            let p1 = if edf & 0x80 != 0 {
                p + 2
            } else {
                p
            };
            let p2 = if edf & 0x10 != 0 {
                p1 + 8
            } else {
                p1
            };
            let p3 = if edf & 0x40 != 0 {
                str_end(s, p2 + 2)
            } else {
                p2
            };
            let p4 = if edf & 0x20 != 0 {
                str_end(s, p3)
            } else {
                p3
            };
            let p5 = if edf & 0x01 != 0 {
                p4 + 8
            } else {
                p4
            };
            &&& ef.port == (if edf & 0x80 != 0 {
                Some(le16_i(s, p))
            } else {
                None::<i16>
            })
            &&& ef.steam_id == (if edf & 0x10 != 0 {
                Some(crate::reader::le64(s, p1))
            } else {
                None::<u64>
            })
            &&& ef.sourcetv_info == (if edf & 0x40 != 0 {
                Some(
                    SourceTVV {
                        port: le16_i(s, p2),
                        name: utf8_lossy_of(str_bytes(s, p2 + 2)),
                    },
                )
            } else {
                None::<SourceTVV>
            })
            &&& ef.keywords == (if edf & 0x20 != 0 {
                Some(utf8_lossy_of(str_bytes(s, p3)))
            } else {
                None::<Seq<char>>
            })
            &&& ef.game_id == (if edf & 0x01 != 0 {
                Some(crate::reader::le64(s, p4))
            } else {
                None::<u64>
            })
            &&& p_end == p5
        }),
{
}

/// The one application id with the extension — and no other — yields a
/// populated extension in a decoded info record, whatever the extra-data
/// flags say.
pub proof fn lemma_ship_iff_app_id(s: Seq<u8>)
    requires
        decode_info(s) is Ok,
    ensures
        decode_info(s)->Ok_0.the_ship is Some <==> decode_info(s)->Ok_0.app_id
            == THE_SHIP_APP_ID,
{
}

} // verus!
