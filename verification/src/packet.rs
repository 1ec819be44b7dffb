//! Fragment reassembly. A logical response arrives either whole in one
//! datagram or split across several; each fragment carries an answer id, the
//! declared fragment count, its own index, and its slice of the payload.
//! The reassembler is fed one datagram at a time and yields the logical
//! payload once as many fragments have arrived as the first one declared.
//! The index is trusted only for ordering, never for spotting duplicates or
//! gaps: the loop ends purely on the count, as the protocol offers nothing
//! stronger, and that leniency is deliberate.

use vstd::prelude::*;

use crate::errors::Error;
use crate::reader::{le32_i, Reader};

verus! {

/// Header of a response that fits in one datagram.
pub const HEADER_SINGLE_PACKET: i32 = -1;

/// Header of a response split across several datagrams.
pub const HEADER_MULTI_PACKET: i32 = -2;

/// The one fragmentation feature this client refuses.
pub const COMPRESSED_FRAGMENTS: &'static str = "compressed multi-fragment responses";

/// One fragment: its index in the logical payload and its slice of bytes.
#[derive(Debug, PartialEq)]
pub struct Fragment {
    pub number: u8,
    pub payload: Vec<u8>,
}

pub ghost struct FragmentV {
    pub number: u8,
    pub payload: Seq<u8>,
}

impl View for Fragment {
    type V = FragmentV;

    open spec fn view(&self) -> FragmentV {
        FragmentV { number: self.number, payload: self.payload@ }
    }
}

/// The fragments of a vector, as ghost values.
pub open spec fn frags_view(fs: Seq<Fragment>) -> Seq<FragmentV> {
    fs.map_values(|f: Fragment| f@)
}

/// Inserts a fragment into a sequence before the first member whose index is
/// not smaller.
pub open spec fn insert_sorted(f: FragmentV, s: Seq<FragmentV>) -> Seq<FragmentV>
    decreases s.len(),
{
    if s.len() == 0 {
        seq![f]
    } else if f.number <= s[0].number {
        seq![f] + s
    } else {
        seq![s[0]] + insert_sorted(f, s.drop_first())
    }
}

/// The fragments rearranged into ascending index order.
pub open spec fn sort_frags(s: Seq<FragmentV>) -> Seq<FragmentV>
    decreases s.len(),
{
    if s.len() == 0 {
        Seq::empty()
    } else {
        insert_sorted(s.last(), sort_frags(s.drop_last()))
    }
}

/// The payloads of the fragments, concatenated in the order given.
pub open spec fn frag_concat(s: Seq<FragmentV>) -> Seq<u8>
    decreases s.len(),
{
    if s.len() == 0 {
        Seq::empty()
    } else {
        frag_concat(s.drop_last()) + s.last().payload
    }
}

/// What reassembly makes of a complete set of fragments: their payloads in
/// ascending index order, with the vestigial 4-byte field that leads the
/// reassembled stream stripped off.
pub open spec fn assemble(frags: Seq<FragmentV>) -> Result<Seq<u8>, Error> {
    let c = frag_concat(sort_frags(frags));
    if c.len() < 4 {
        Err(Error::Truncated)
    } else {
        Ok(c.subrange(4, c.len() as int))
    }
}

/// The fragment envelope of a datagram, read from offset 4: answer id,
/// declared fragment count, fragment index, a 2-byte size hint that is
/// informational only, then the payload to the end of the datagram.
pub open spec fn parse_fragment(d: Seq<u8>, expected_id: i32) -> Result<(FragmentV, u8), Error> {
    if d.len() < 8 {
        Err(Error::Truncated)
    } else if le32_i(d, 4) != expected_id {
        Err(Error::UnexpectedAnswerID { expected: expected_id, found: le32_i(d, 4) })
    } else if d.len() < 12 {
        Err(Error::Truncated)
    } else {
        Ok((FragmentV { number: d[9], payload: d.subrange(12, d.len() as int) }, d[8]))
    }
}

pub ghost struct ReassemblerV {
    pub started: bool,
    pub answer_id: i32,
    pub total: u8,
    pub fragments: Seq<FragmentV>,
}

/// The state before any datagram of a logical exchange has arrived, and
/// again after a payload has been yielded.
pub open spec fn reassembler_init() -> ReassemblerV {
    ReassemblerV { started: false, answer_id: 0, total: 0, fragments: Seq::empty() }
}

/// What feeding the first datagram of an exchange does. A datagram under 5
/// bytes is rejected outright. A single-fragment header yields the rest of
/// the datagram at once; a multi-fragment header whose answer id has its
/// sign bit set is refused — compressed fragmentation — before any fragment
/// payload is looked at; any other header is rejected.
pub open spec fn feed_first(st: ReassemblerV, d: Seq<u8>) -> Result<
    (ReassemblerV, Option<Seq<u8>>),
    Error,
> {
    if d.len() < 5 {
        Err(Error::InvalidResponse)
    } else if le32_i(d, 0) == HEADER_SINGLE_PACKET {
        Ok((st, Some(d.subrange(4, d.len() as int))))
    } else if le32_i(d, 0) == HEADER_MULTI_PACKET {
        if d.len() < 8 {
            Err(Error::Truncated)
        } else if le32_i(d, 4) < 0 {
            Err(Error::NotImplemented { feature: COMPRESSED_FRAGMENTS })
        } else {
            match parse_fragment(d, le32_i(d, 4)) {
                Err(e) => Err(e),
                Ok((frag, declared_total)) => {
                    let st2 = ReassemblerV {
                        started: true,
                        answer_id: le32_i(d, 4),
                        total: declared_total,
                        fragments: seq![frag],
                    };
                    if 1 == declared_total as int {
                        match assemble(st2.fragments) {
                            Err(e) => Err(e),
                            Ok(out) => Ok((reassembler_init(), Some(out))),
                        }
                    } else {
                        Ok((st2, None))
                    }
                },
            }
        }
    } else {
        Err(Error::InvalidResponse)
    }
}

/// What feeding a follow-up datagram does: its own 4-byte header is read and
/// discarded, its answer id must match the first fragment's, and the
/// exchange completes when as many fragments have arrived as the first
/// fragment declared.
pub open spec fn feed_next(st: ReassemblerV, d: Seq<u8>) -> Result<
    (ReassemblerV, Option<Seq<u8>>),
    Error,
> {
    match parse_fragment(d, st.answer_id) {
        Err(e) => Err(e),
        Ok((frag, _declared_total)) => {
            let st2 = ReassemblerV {
                started: st.started,
                answer_id: st.answer_id,
                total: st.total,
                fragments: st.fragments + seq![frag],
            };
            if st2.fragments.len() == st.total as int {
                match assemble(st2.fragments) {
                    Err(e) => Err(e),
                    Ok(out) => Ok((reassembler_init(), Some(out))),
                }
            } else {
                Ok((st2, None))
            }
        },
    }
}

/// One step of the reassembly state machine.
pub open spec fn spec_feed(st: ReassemblerV, d: Seq<u8>) -> Result<
    (ReassemblerV, Option<Seq<u8>>),
    Error,
> {
    if !st.started {
        feed_first(st, d)
    } else {
        feed_next(st, d)
    }
}

/// `insert_sorted` puts the fragment exactly where a scan for the first
/// not-smaller index says it belongs.
proof fn lemma_insert_sorted_at(f: FragmentV, s: Seq<FragmentV>, i: int)
    requires
        0 <= i <= s.len(),
        forall|j: int| 0 <= j < i ==> s[j].number < f.number,
        i < s.len() ==> f.number <= s[i].number,
    ensures
        insert_sorted(f, s) == s.subrange(0, i) + seq![f] + s.subrange(i, s.len() as int),
    decreases i,
{
    if i == 0 {
        if s.len() == 0 {
            assert(insert_sorted(f, s) =~= s.subrange(0, 0) + seq![f] + s.subrange(
                0,
                s.len() as int,
            ));
        } else {
            assert(insert_sorted(f, s) =~= s.subrange(0, 0) + seq![f] + s.subrange(
                0,
                s.len() as int,
            ));
        }
    } else {
        assert(s[0].number < f.number);
        lemma_insert_sorted_at(f, s.drop_first(), i - 1);
        assert(s.drop_first().subrange(0, i - 1) =~= s.subrange(1, i));
        assert(s.drop_first().subrange(i - 1, s.drop_first().len() as int) =~= s.subrange(
            i,
            s.len() as int,
        ));
        assert(seq![s[0]] + (s.subrange(1, i) + seq![f] + s.subrange(i, s.len() as int))
            =~= s.subrange(0, i) + seq![f] + s.subrange(i, s.len() as int));
    }
}

/// Collects the fragments into ascending index order, as `sort_frags` says.
fn sort_fragments(frags: &mut Vec<Fragment>)
    ensures
        frags_view(final(frags)@) == sort_frags(frags_view(old(frags)@)),
{
    let ghost s0 = frags_view(old(frags)@);
    let mut out: Vec<Fragment> = Vec::new();
    proof {
        assert(frags_view(frags@) =~= s0.skip(0));
        assert(frags_view(out@) =~= Seq::<FragmentV>::empty());
        assert(s0.take(0) =~= Seq::<FragmentV>::empty());
    }
    while frags.len() > 0
        invariant
            s0 == frags_view(old(frags)@),
            frags@.len() <= s0.len(),
            frags_view(frags@) == s0.skip(s0.len() - frags@.len()),
            frags_view(out@) == sort_frags(s0.take(s0.len() - frags@.len())),
        decreases frags@.len(),
    {
        let ghost k = s0.len() - frags@.len();
        let f = frags.remove(0);
        proof {
            assert(f@ == s0.skip(k)[0]);
            assert(f@ == s0[k]);
            assert(frags_view(frags@) =~= s0.skip(k).drop_first());
            assert(s0.skip(k).drop_first() =~= s0.skip(k + 1));
        }
        // find the first member of `out` whose index is not smaller
        let mut idx: usize = 0;
        while idx < out.len() && out[idx].number < f.number
            invariant
                idx <= out.len(),
                forall|j: int| 0 <= j < idx ==> out@[j].number < f.number,
            decreases out@.len() - idx,
        {
            idx = idx + 1;
        }
        let ghost prev_out = frags_view(out@);
        proof {
            lemma_insert_sorted_at(f@, prev_out, idx as int);
        }
        out.insert(idx, f);
        proof {
            assert(frags_view(out@) =~= prev_out.subrange(0, idx as int) + seq![f@]
                + prev_out.subrange(idx as int, prev_out.len() as int));
            assert(s0.take(k + 1).drop_last() =~= s0.take(k));
            assert(s0.take(k + 1).last() == s0[k]);
        }
    }
    proof {
        assert(s0.take(s0.len() as int) =~= s0);
    }
    let mut sorted = out;
    core::mem::swap(frags, &mut sorted);
}

/// Concatenates the fragments' payloads in the order given.
fn concat_fragments(frags: &Vec<Fragment>) -> (out: Vec<u8>)
    ensures
        out@ == frag_concat(frags_view(frags@)),
{
    let ghost fv = frags_view(frags@);
    let mut out: Vec<u8> = Vec::new();
    proof {
        assert(fv.take(0) =~= Seq::<FragmentV>::empty());
        assert(out@ =~= frag_concat(fv.take(0)));
    }
    let mut k: usize = 0;
    while k < frags.len()
        invariant
            fv == frags_view(frags@),
            fv.len() == frags@.len(),
            k <= frags@.len(),
            out@ == frag_concat(fv.take(k as int)),
        decreases frags@.len() - k,
    {
        let ghost before = out@;
        let mut j: usize = 0;
        while j < frags[k].payload.len()
            invariant
                fv == frags_view(frags@),
                fv.len() == frags@.len(),
                k < frags@.len(),
                j <= frags@[k as int].payload@.len(),
                before == frag_concat(fv.take(k as int)),
                out@ == before + frags@[k as int].payload@.subrange(0, j as int),
            decreases frags@[k as int].payload@.len() - j,
        {
            let b = frags[k].payload[j];
            out.push(b);
            proof {
                assert(frags@[k as int].payload@.subrange(0, j as int + 1) =~= frags@[
                    k as int].payload@.subrange(0, j as int).push(b));
                assert(out@ =~= before + frags@[k as int].payload@.subrange(0, j as int + 1));
            }
            j = j + 1;
        }
        proof {
            assert(frags@[k as int].payload@.subrange(0, frags@[k as int].payload@.len() as int)
                =~= frags@[k as int].payload@);
            assert(fv.take(k as int + 1).drop_last() =~= fv.take(k as int));
            assert(fv.take(k as int + 1).last() == fv[k as int]);
            assert(fv[k as int].payload == frags@[k as int].payload@);
            assert(out@ == frag_concat(fv.take(k as int + 1)));
        }
        k = k + 1;
    }
    proof {
        assert(fv.take(fv.len() as int) =~= fv);
    }
    out
}

/// Consumes raw datagrams one at a time and yields one logical payload per
/// logical response.
pub struct Reassembler {
    started: bool,
    answer_id: i32,
    total: u8,
    fragments: Vec<Fragment>,
}

impl View for Reassembler {
    type V = ReassemblerV;

    closed spec fn view(&self) -> ReassemblerV {
        ReassemblerV {
            started: self.started,
            answer_id: self.answer_id,
            total: self.total,
            fragments: frags_view(self.fragments@),
        }
    }
}

impl Reassembler {
    pub fn new() -> (r: Reassembler)
        ensures
            r@ == reassembler_init(),
    {
        let r = Reassembler { started: false, answer_id: 0, total: 0, fragments: Vec::new() };
        proof {
            assert(frags_view(r.fragments@) =~= Seq::<FragmentV>::empty());
        }
        r
    }

    /// Sorts, concatenates and strips the collected fragments, and puts the
    /// reassembler back in its initial state for the next exchange.
    fn assemble_and_reset(&mut self) -> (r: Result<Vec<u8>, Error>)
        ensures
            final(self)@ == reassembler_init(),
            match r {
                Ok(out) => assemble(old(self)@.fragments) == Ok::<Seq<u8>, Error>(out@),
                Err(e) => assemble(old(self)@.fragments) == Err::<Seq<u8>, Error>(e),
            },
    {
        sort_fragments(&mut self.fragments);
        let concatenated = concat_fragments(&self.fragments);
        self.started = false;
        self.answer_id = 0;
        self.total = 0;
        self.fragments = Vec::new();
        proof {
            assert(frags_view(Seq::<Fragment>::empty()) =~= Seq::<FragmentV>::empty());
        }
        let mut rd = Reader::new(concatenated);
        match rd.read_i32_le() {
            Ok(_) => {},
            Err(e) => return Err(e),
        }
        Ok(rd.read_remaining())
    }

    /// Feeds one datagram; yields the logical payload when the response is
    /// complete, `None` while fragments are still owed. An error ends the
    /// exchange: fragments already collected are never returned, and the
    /// reassembler is not meant to be fed again.
    pub fn feed(&mut self, datagram: Vec<u8>) -> (r: Result<Option<Vec<u8>>, Error>)
        ensures
            match r {
                Ok(out) => spec_feed(old(self)@, datagram@) == Ok::<
                    (ReassemblerV, Option<Seq<u8>>),
                    Error,
                >(
                    (
                        final(self)@,
                        match out {
                            Some(v) => Some(v@),
                            None => None::<Seq<u8>>,
                        },
                    ),
                ),
                Err(e) => spec_feed(old(self)@, datagram@) == Err::<
                    (ReassemblerV, Option<Seq<u8>>),
                    Error,
                >(e),
            },
    {
        let ghost d = datagram@;
        if !self.started {
            if datagram.len() < 5 {
                return Err(Error::InvalidResponse);
            }
            let mut rd = Reader::new(datagram);
            let header = match rd.read_i32_le() {
                Ok(v) => v,
                Err(e) => return Err(e),
            };
            if header == HEADER_SINGLE_PACKET {
                let payload = rd.read_remaining();
                Ok(Some(payload))
            } else if header == HEADER_MULTI_PACKET {
                let answer_id = match rd.read_i32_le() {
                    Ok(v) => v,
                    Err(e) => return Err(e),
                };
                if answer_id < 0 {
                    return Err(Error::NotImplemented { feature: COMPRESSED_FRAGMENTS });
                }
                let total = match rd.read_u8() {
                    Ok(v) => v,
                    Err(e) => return Err(e),
                };
                let number = match rd.read_u8() {
                    Ok(v) => v,
                    Err(e) => return Err(e),
                };
                match rd.read_i16_le() {
                    Ok(_) => {},
                    Err(e) => return Err(e),
                }
                let payload = rd.read_remaining();
                self.started = true;
                self.answer_id = answer_id;
                self.total = total;
                let mut first = Vec::new();
                first.push(Fragment { number, payload });
                self.fragments = first;
                proof {
                    assert(frags_view(self.fragments@) =~= seq![
                        FragmentV {
                            number: d[9],
                            payload: d.subrange(12, d.len() as int),
                        },
                    ]);
                }
                if self.fragments.len() == total as usize {
                    match self.assemble_and_reset() {
                        Ok(out) => Ok(Some(out)),
                        Err(e) => Err(e),
                    }
                } else {
                    Ok(None)
                }
            } else {
                Err(Error::InvalidResponse)
            }
        } else {
            let mut rd = Reader::new(datagram);
            match rd.read_i32_le() {
                Ok(_) => {},
                Err(e) => return Err(e),
            }
            let id = match rd.read_i32_le() {
                Ok(v) => v,
                Err(e) => return Err(e),
            };
            if id != self.answer_id {
                return Err(Error::UnexpectedAnswerID { expected: self.answer_id, found: id });
            }
            match rd.read_u8() {
                Ok(_) => {},
                Err(e) => return Err(e),
            }
            let number = match rd.read_u8() {
                Ok(v) => v,
                Err(e) => return Err(e),
            };
            match rd.read_i16_le() {
                Ok(_) => {},
                Err(e) => return Err(e),
            }
            let payload = rd.read_remaining();
            self.fragments.push(Fragment { number, payload });
            proof {
                assert(frags_view(old(self).fragments@).push(
                    Fragment { number, payload }@,
                ) =~= frags_view(self.fragments@));
                assert(old(self)@.fragments + seq![Fragment { number, payload }@] =~= frags_view(
                    self.fragments@,
                ));
            }
            if self.fragments.len() == self.total as usize {
                match self.assemble_and_reset() {
                    Ok(out) => Ok(Some(out)),
                    Err(e) => Err(e),
                }
            } else {
                Ok(None)
            }
        }
    }
}

/// No two fragments share an index.
pub open spec fn distinct_numbers(s: Seq<FragmentV>) -> bool {
    forall|i: int, j: int| 0 <= i < j < s.len() ==> s[i].number != s[j].number
}

/// The fragments stand in ascending index order.
pub open spec fn sorted_frags(s: Seq<FragmentV>) -> bool {
    forall|i: int, j: int| 0 <= i <= j < s.len() ==> s[i].number <= s[j].number
}

/// Whether some fragment carries the given index.
pub open spec fn has_number(s: Seq<FragmentV>, n: u8) -> bool {
    exists|i: int| 0 <= i < s.len() && s[i].number == n
}

proof fn lemma_insert_sorted_multiset(f: FragmentV, s: Seq<FragmentV>)
    ensures
        insert_sorted(f, s).to_multiset() == s.to_multiset().insert(f),
    decreases s.len(),
{
    broadcast use vstd::seq_lib::group_to_multiset_ensures;
    broadcast use vstd::multiset::group_multiset_axioms;

    if s.len() == 0 {
        assert(seq![f] =~= Seq::<FragmentV>::empty().push(f));
        assert(insert_sorted(f, s).to_multiset() =~= s.to_multiset().insert(f));
    } else if f.number <= s[0].number {
        vstd::seq_lib::lemma_multiset_commutative(seq![f], s);
        assert(seq![f] =~= Seq::<FragmentV>::empty().push(f));
        assert(insert_sorted(f, s).to_multiset() =~= s.to_multiset().insert(f));
    } else {
        lemma_insert_sorted_multiset(f, s.drop_first());
        vstd::seq_lib::lemma_multiset_commutative(seq![s[0]], insert_sorted(f, s.drop_first()));
        vstd::seq_lib::lemma_multiset_commutative(seq![s[0]], s.drop_first());
        assert(seq![s[0]] =~= Seq::<FragmentV>::empty().push(s[0]));
        assert(s =~= seq![s[0]] + s.drop_first());
        assert(insert_sorted(f, s).to_multiset() =~= s.to_multiset().insert(f));
    }
}

proof fn lemma_sort_frags_multiset(s: Seq<FragmentV>)
    ensures
        sort_frags(s).to_multiset() == s.to_multiset(),
    decreases s.len(),
{
    broadcast use vstd::seq_lib::group_to_multiset_ensures;
    broadcast use vstd::multiset::group_multiset_axioms;

    if s.len() > 0 {
        lemma_sort_frags_multiset(s.drop_last());
        lemma_insert_sorted_multiset(s.last(), sort_frags(s.drop_last()));
        assert(s =~= s.drop_last().push(s.last()));
        assert(sort_frags(s).to_multiset() =~= s.to_multiset());
    }
}

proof fn lemma_insert_sorted_sorted(f: FragmentV, s: Seq<FragmentV>)
    requires
        sorted_frags(s),
    ensures
        sorted_frags(insert_sorted(f, s)),
    decreases s.len(),
{
    broadcast use vstd::seq_lib::group_to_multiset_ensures;
    broadcast use vstd::multiset::group_multiset_axioms;

    if s.len() == 0 {
    } else if f.number <= s[0].number {
        let r = seq![f] + s;
        assert forall|i: int, j: int| 0 <= i <= j < r.len() implies r[i].number
            <= r[j].number by {
            if i == 0 && j > 0 {
                assert(r[j] == s[j - 1]);
                assert(s[0].number <= s[j - 1].number);
            }
        }
    } else {
        assert(sorted_frags(s.drop_first()));
        lemma_insert_sorted_sorted(f, s.drop_first());
        lemma_insert_sorted_multiset(f, s.drop_first());
        let t = insert_sorted(f, s.drop_first());
        let r = seq![s[0]] + t;
        assert forall|i: int, j: int| 0 <= i <= j < r.len() implies r[i].number
            <= r[j].number by {
            if i == 0 && j > 0 {
                let x = t[j - 1];
                assert(t.contains(x));
                assert(t.to_multiset().count(x) > 0);
                if x != f {
                    assert(s.drop_first().to_multiset().count(x) > 0);
                    assert(s.drop_first().contains(x));
                    let k = choose|k: int|
                        0 <= k < s.drop_first().len() && s.drop_first()[k] == x;
                    assert(s[k + 1] == x);
                    assert(s[0].number <= s[k + 1].number);
                }
            } else if i > 0 {
                assert(r[i] == t[i - 1] && r[j] == t[j - 1]);
            }
        }
    }
}

proof fn lemma_insert_sorted_distinct(f: FragmentV, s: Seq<FragmentV>)
    requires
        distinct_numbers(s),
        !has_number(s, f.number),
    ensures
        distinct_numbers(insert_sorted(f, s)),
        forall|n: u8|
            has_number(insert_sorted(f, s), n) <==> has_number(s, n) || n == f.number,
    decreases s.len(),
{
    if s.len() == 0 {
        let r = seq![f];
        assert forall|n: u8| has_number(r, n) <==> has_number(s, n) || n == f.number by {
            if n == f.number {
                assert(r[0].number == n);
            }
            if has_number(r, n) {
                let i = choose|i: int| 0 <= i < r.len() && r[i].number == n;
                assert(i == 0);
            }
        }
    } else if f.number <= s[0].number {
        let r = seq![f] + s;
        assert forall|i: int, j: int| 0 <= i < j < r.len() implies r[i].number
            != r[j].number by {
            if i == 0 {
                assert(r[j] == s[j - 1]);
                assert(!(s[j - 1].number == f.number)) by {
                    if s[j - 1].number == f.number {
                        assert(has_number(s, f.number));
                    }
                }
            } else {
                assert(r[i] == s[i - 1] && r[j] == s[j - 1]);
            }
        }
        assert forall|n: u8| has_number(r, n) <==> has_number(s, n) || n == f.number by {
            if has_number(s, n) {
                let i = choose|i: int| 0 <= i < s.len() && s[i].number == n;
                assert(r[i + 1].number == n);
            }
            if n == f.number {
                assert(r[0].number == n);
            }
            if has_number(r, n) {
                let i = choose|i: int| 0 <= i < r.len() && r[i].number == n;
                if i > 0 {
                    assert(s[i - 1].number == n);
                }
            }
        }
    } else {
        assert(distinct_numbers(s.drop_first()));
        assert(!has_number(s.drop_first(), f.number)) by {
            if has_number(s.drop_first(), f.number) {
                let i = choose|i: int|
                    0 <= i < s.drop_first().len() && s.drop_first()[i].number == f.number;
                assert(s[i + 1].number == f.number);
                assert(has_number(s, f.number));
            }
        }
        lemma_insert_sorted_distinct(f, s.drop_first());
        let t = insert_sorted(f, s.drop_first());
        let r = seq![s[0]] + t;
        assert(!has_number(t, s[0].number)) by {
            if has_number(t, s[0].number) {
                assert(has_number(s.drop_first(), s[0].number) || s[0].number == f.number);
                if has_number(s.drop_first(), s[0].number) {
                    let i = choose|i: int|
                        0 <= i < s.drop_first().len() && s.drop_first()[i].number
                            == s[0].number;
                    assert(s[i + 1].number == s[0].number);
                } else {
                    assert(has_number(s, f.number)) by {
                        assert(s[0].number == f.number);
                    }
                }
            }
        }
        assert forall|i: int, j: int| 0 <= i < j < r.len() implies r[i].number
            != r[j].number by {
            if i == 0 {
                assert(r[j] == t[j - 1]);
                assert(!(t[j - 1].number == s[0].number)) by {
                    if t[j - 1].number == s[0].number {
                        assert(has_number(t, s[0].number));
                    }
                }
            } else {
                assert(r[i] == t[i - 1] && r[j] == t[j - 1]);
            }
        }
        assert forall|n: u8| has_number(r, n) <==> has_number(s, n) || n == f.number by {
            if has_number(s, n) {
                let i = choose|i: int| 0 <= i < s.len() && s[i].number == n;
                if i == 0 {
                    assert(r[0].number == n);
                } else {
                    assert(s.drop_first()[i - 1].number == n);
                    assert(has_number(s.drop_first(), n));
                    assert(has_number(t, n));
                    let k = choose|k: int| 0 <= k < t.len() && t[k].number == n;
                    assert(r[k + 1].number == n);
                }
            }
            if n == f.number {
                assert(has_number(t, n));
                let k = choose|k: int| 0 <= k < t.len() && t[k].number == n;
                assert(r[k + 1].number == n);
            }
            if has_number(r, n) {
                let i = choose|i: int| 0 <= i < r.len() && r[i].number == n;
                if i == 0 {
                    assert(s[0].number == n);
                    assert(has_number(s, n));
                } else {
                    assert(t[i - 1].number == n);
                    assert(has_number(t, n));
                    if has_number(s.drop_first(), n) {
                        let k = choose|k: int|
                            0 <= k < s.drop_first().len() && s.drop_first()[k].number == n;
                        assert(s[k + 1].number == n);
                        assert(has_number(s, n));
                    }
                }
            }
        }
    }
}

proof fn lemma_sort_frags_distinct(s: Seq<FragmentV>)
    requires
        distinct_numbers(s),
    ensures
        distinct_numbers(sort_frags(s)),
        forall|n: u8| has_number(sort_frags(s), n) <==> has_number(s, n),
    decreases s.len(),
{
    if s.len() == 0 {
        assert forall|n: u8| has_number(sort_frags(s), n) <==> has_number(s, n) by {}
    } else {
        let d = s.drop_last();
        assert(distinct_numbers(d));
        lemma_sort_frags_distinct(d);
        assert(!has_number(d, s.last().number)) by {
            if has_number(d, s.last().number) {
                let i = choose|i: int| 0 <= i < d.len() && d[i].number == s.last().number;
                assert(s[i].number == s[s.len() - 1].number);
            }
        }
        assert(!has_number(sort_frags(d), s.last().number));
        lemma_insert_sorted_distinct(s.last(), sort_frags(d));
        assert forall|n: u8| has_number(sort_frags(s), n) <==> has_number(s, n) by {
            if has_number(s, n) {
                let i = choose|i: int| 0 <= i < s.len() && s[i].number == n;
                if i < s.len() - 1 {
                    assert(d[i].number == n);
                    assert(has_number(d, n));
                } else {
                    assert(n == s.last().number);
                }
            }
            if has_number(d, n) {
                let i = choose|i: int| 0 <= i < d.len() && d[i].number == n;
                assert(s[i].number == n);
            }
            if n == s.last().number {
                assert(s[s.len() - 1].number == n);
            }
        }
    }
}

proof fn lemma_sorted_frags_unique(a: Seq<FragmentV>, b: Seq<FragmentV>)
    requires
        sorted_frags(a),
        sorted_frags(b),
        distinct_numbers(a),
        a.to_multiset() == b.to_multiset(),
    ensures
        a == b,
    decreases a.len(),
{
    broadcast use vstd::seq_lib::group_to_multiset_ensures;
    broadcast use vstd::multiset::group_multiset_axioms;

    assert(a.len() == a.to_multiset().len());
    assert(b.len() == b.to_multiset().len());
    if a.len() == 0 {
        assert(b.len() == 0);
        assert(a =~= b);
    } else {
        assert(b.len() == a.len());
        assert(b.contains(b[0]));
        assert(a.to_multiset().count(b[0]) > 0);
        assert(a.contains(b[0]));
        let i = choose|i: int| 0 <= i < a.len() && a[i] == b[0];
        assert(a.contains(a[0]));
        assert(b.to_multiset().count(a[0]) > 0);
        assert(b.contains(a[0]));
        let k = choose|k: int| 0 <= k < b.len() && b[k] == a[0];
        assert(a[0].number <= a[i].number);
        assert(b[0].number <= b[k].number);
        assert(a[0].number == b[0].number);
        assert(i == 0) by {
            if i != 0 {
                assert(a[0].number != a[i].number);
            }
        }
        assert(a[0] == b[0]);
        assert(a.remove(0) =~= a.drop_first());
        assert(b.remove(0) =~= b.drop_first());
        assert(a.drop_first().to_multiset() =~= a.to_multiset().remove(a[0]));
        assert(b.drop_first().to_multiset() =~= b.to_multiset().remove(b[0]));
        assert(sorted_frags(a.drop_first()));
        assert(sorted_frags(b.drop_first()));
        assert(distinct_numbers(a.drop_first()));
        lemma_sorted_frags_unique(a.drop_first(), b.drop_first());
        assert(a =~= seq![a[0]] + a.drop_first());
        assert(b =~= seq![b[0]] + b.drop_first());
        assert(a =~= b);
    }
}

/// Reassembly is order-independent: two deliveries that hand over the same
/// fragments — as a multiset, so in any order — with no repeated fragment
/// index assemble to the same logical payload, or fail alike.
pub proof fn lemma_reassembly_order_independent(a: Seq<FragmentV>, b: Seq<FragmentV>)
    requires
        a.to_multiset() == b.to_multiset(),
        distinct_numbers(a),
    ensures
        assemble(a) == assemble(b),
{
    broadcast use vstd::seq_lib::group_to_multiset_ensures;
    broadcast use vstd::multiset::group_multiset_axioms;

    // distinctness carries over to `b`: every pair of positions in `b` maps
    // back to distinct positions in `a`
    assert(distinct_numbers(b)) by {
        if !distinct_numbers(b) {
            let (i, j) = choose|i: int, j: int|
                0 <= i < j < b.len() && b[i].number == b[j].number;
            assert(b.remove(i) =~= b.subrange(0, i) + b.subrange(i + 1, b.len() as int));
            assert(b.remove(i).to_multiset() =~= b.to_multiset().remove(b[i]));
            assert(b.remove(i)[j - 1] == b[j]);
            assert(b.remove(i).contains(b[j]));
            assert(b.remove(i).to_multiset().count(b[j]) > 0);
            assert(b.contains(b[i]));
            assert(b.to_multiset().count(b[i]) > 0);
            assert(a.to_multiset().count(b[i]) > 0);
            assert(a.contains(b[i]));
            let x = choose|x: int| 0 <= x < a.len() && a[x] == b[i];
            assert(a.remove(x) =~= a.subrange(0, x) + a.subrange(x + 1, a.len() as int));
            assert(a.remove(x).to_multiset() =~= a.to_multiset().remove(a[x]));
            assert(a.remove(x).to_multiset().count(b[j]) > 0);
            assert(a.remove(x).contains(b[j]));
            let y = choose|y: int| 0 <= y < a.remove(x).len() && a.remove(x)[y] == b[j];
            if y < x {
                assert(a[y] == b[j]);
                assert(a[y].number == a[x].number);
            } else {
                assert(a[y + 1] == b[j]);
                assert(a[y + 1].number == a[x].number);
            }
        }
    }
    lemma_sort_frags_multiset(a);
    lemma_sort_frags_multiset(b);
    assert forall|s: Seq<FragmentV>| distinct_numbers(s) implies distinct_numbers(
        sort_frags(s),
    ) by {
        lemma_sort_frags_distinct(s);
    }
    assert forall|s: Seq<FragmentV>| true implies sorted_frags(sort_frags(s)) by {
        lemma_sort_frags_sorted(s);
    }
    lemma_sorted_frags_unique(sort_frags(a), sort_frags(b));
}

proof fn lemma_sort_frags_sorted(s: Seq<FragmentV>)
    ensures
        sorted_frags(sort_frags(s)),
    decreases s.len(),
{
    if s.len() > 0 {
        lemma_sort_frags_sorted(s.drop_last());
        lemma_insert_sorted_sorted(s.last(), sort_frags(s.drop_last()));
    }
}

/// A follow-up fragment whose answer id differs from the first fragment's
/// fails with exactly that pair of ids, whatever else the datagram holds.
pub proof fn lemma_answer_id_mismatch(st: ReassemblerV, d: Seq<u8>)
    requires
        st.started,
        d.len() >= 8,
        le32_i(d, 4) != st.answer_id,
    ensures
        spec_feed(st, d) == Err::<(ReassemblerV, Option<Seq<u8>>), Error>(
            Error::UnexpectedAnswerID { expected: st.answer_id, found: le32_i(d, 4) },
        ),
{
}

/// A first datagram that declares multi-fragment framing with the answer
/// id's sign bit set is refused as unsupported compressed fragmentation,
/// before any fragment payload is looked at.
pub proof fn lemma_compressed_refused(st: ReassemblerV, d: Seq<u8>)
    requires
        !st.started,
        d.len() >= 8,
        le32_i(d, 0) == HEADER_MULTI_PACKET,
        le32_i(d, 4) < 0,
    ensures
        spec_feed(st, d) == Err::<(ReassemblerV, Option<Seq<u8>>), Error>(
            Error::NotImplemented { feature: COMPRESSED_FRAGMENTS },
        ),
{
}

} // verus!
