//! The rules decoder: a 16-bit pair count, then that many name/value string
//! pairs. Unlike the player-list decoder there is no truncation tolerance: a
//! buffer that runs out mid-list is an error and no partial list is returned.

use vstd::prelude::*;

use crate::errors::Error;
use crate::reader::{le16, nul_pos, str_bytes, utf8_lossy_of, Reader};

verus! {

/// Leading byte of a rules response.
pub const RULES_RESPONSE_HEADER: u8 = 0x45;

/// One server rule: a name/value pair. A response is an ordered list of
/// pairs; name uniqueness is neither guaranteed nor enforced.
#[derive(Debug, PartialEq)]
pub struct Rule {
    pub name: String,

    pub value: String,
}

pub ghost struct RuleV {
    pub name: Seq<char>,
    pub value: Seq<char>,
}

impl View for Rule {
    type V = RuleV;

    open spec fn view(&self) -> RuleV {
        RuleV { name: self.name@, value: self.value@ }
    }
}

/// The pairs of a rule vector, as ghost values.
pub open spec fn rules_view(rs: Seq<Rule>) -> Seq<RuleV> {
    rs.map_values(|r: Rule| r@)
}

/// Decodes `n` name/value pairs from `p` on. Every string must reach its
/// terminator inside the buffer: running out of bytes mid-list is an error.
pub open spec fn decode_rules(s: Seq<u8>, p: int, n: nat) -> Result<Seq<RuleV>, Error>
    decreases n,
{
    if n == 0 {
        Ok(Seq::empty())
    } else if nul_pos(s, p) >= s.len() {
        Err(Error::Truncated)
    } else {
        let name = utf8_lossy_of(str_bytes(s, p));
        let p1 = nul_pos(s, p) + 1;
        if nul_pos(s, p1) >= s.len() {
            Err(Error::Truncated)
        } else {
            let value = utf8_lossy_of(str_bytes(s, p1));
            let p2 = nul_pos(s, p1) + 1;
            match decode_rules(s, p2, (n - 1) as nat) {
                Err(e) => Err(e),
                Ok(rest) => Ok(seq![RuleV { name, value }] + rest),
            }
        }
    }
}

/// What decoding a rules payload yields. The payload starts with the
/// response-type byte, then the 16-bit pair count, then the pairs.
pub open spec fn decode_rule_list(s: Seq<u8>) -> Result<Seq<RuleV>, Error> {
    if s.len() < 1 {
        Err(Error::Truncated)
    } else if s[0] != RULES_RESPONSE_HEADER {
        Err(Error::InvalidHeader { expected: RULES_RESPONSE_HEADER, found: s[0] })
    } else if s.len() < 3 {
        Err(Error::Truncated)
    } else {
        decode_rules(s, 3, le16(s, 1) as nat)
    }
}

impl Rule {
    /// Decodes a rules payload, the bytes from the response-type byte on.
    pub fn list_from_bytes(payload: Vec<u8>) -> (r: Result<Vec<Rule>, Error>)
        ensures
            match r {
                Ok(rules) => decode_rule_list(payload@) == Ok::<Seq<RuleV>, Error>(
                    rules_view(rules@),
                ),
                Err(e) => decode_rule_list(payload@) == Err::<Seq<RuleV>, Error>(e),
            },
    {
        let ghost s = payload@;
        let mut rd = Reader::new(payload);
        let header = match rd.read_u8() {
            Ok(b) => b,
            Err(e) => return Err(e),
        };
        if header != RULES_RESPONSE_HEADER {
            return Err(Error::InvalidHeader { expected: RULES_RESPONSE_HEADER, found: header });
        }
        let n_rules = match rd.read_u16_le() {
            Ok(v) => v,
            Err(e) => return Err(e),
        };
        let mut rules: Vec<Rule> = Vec::new();
        proof {
            assert(rules_view(rules@) =~= Seq::<RuleV>::empty());
            let whole = decode_rules(s, 3, n_rules as nat);
            if whole is Ok {
                assert(rules_view(rules@) + whole->Ok_0 =~= whole->Ok_0);
            }
        }
        let mut i: u16 = 0;
        while i < n_rules
            invariant
                s == payload@,
                s == rd.bytes(),
                rd.wf(),
                i <= n_rules,
                3 <= s.len(),
                s[0] == RULES_RESPONSE_HEADER,
                le16(s, 1) == n_rules,
                decode_rules(s, 3, n_rules as nat) == (match decode_rules(
                    s,
                    rd.position(),
                    (n_rules - i) as nat,
                ) {
                    Ok(rest) => Ok::<Seq<RuleV>, Error>(rules_view(rules@) + rest),
                    Err(e) => Err::<Seq<RuleV>, Error>(e),
                }),
            decreases n_rules - i,
        {
            let ghost n_entry = (n_rules - i) as nat;
            let name = match rd.read_string_strict() {
                Ok(v) => v,
                Err(e) => return Err(e),
            };
            let value = match rd.read_string_strict() {
                Ok(v) => v,
                Err(e) => return Err(e),
            };
            let rule = Rule { name, value };
            let ghost prev_rules = rules@;
            rules.push(rule);
            proof {
                assert(rules_view(rules@) =~= rules_view(prev_rules) + seq![rules@.last()@]);
                let rest = decode_rules(s, rd.position(), (n_entry - 1) as nat);
                if rest is Ok {
                    assert(rules_view(prev_rules) + (seq![rules@.last()@] + rest->Ok_0)
                        =~= rules_view(rules@) + rest->Ok_0);
                }
            }
            i = i + 1;
        }
        proof {
            assert(rules_view(rules@) + Seq::<RuleV>::empty() =~= rules_view(rules@));
        }
        Ok(rules)
    }
}

/// No partial list: when pair decoding succeeds it yields exactly as many
/// pairs as were asked for — a buffer that runs out mid-list fails instead,
/// with nothing returned.
pub proof fn lemma_rules_all_or_nothing(s: Seq<u8>, p: int, n: nat)
    requires
        decode_rules(s, p, n) is Ok,
    ensures
        decode_rules(s, p, n)->Ok_0.len() == n,
    decreases n,
{
    if n > 0 {
        let p1 = nul_pos(s, p) + 1;
        let p2 = nul_pos(s, p1) + 1;
        lemma_rules_all_or_nothing(s, p2, (n - 1) as nat);
    }
}

/// A decoded rules response holds exactly the number of pairs its count
/// field declared.
pub proof fn lemma_rule_list_full(s: Seq<u8>)
    requires
        decode_rule_list(s) is Ok,
    ensures
        decode_rule_list(s)->Ok_0.len() == le16(s, 1),
{
    lemma_rules_all_or_nothing(s, 3, le16(s, 1) as nat);
}

} // verus!
