//! Buffer instructions: the tokenizer's view of a buffer's marks.

use crate::diag::Cond;
use crate::engine::Engine;
use crate::obj::{nil, EnvId, Obj, Word};
use crate::objects::{spec_data, spec_is, Objects, PAIR_BITS, SPAIR_BITS};
use crate::value::pair::{room_for_pairs, spec_walk};
use crate::value::text::{spec_text, stored_at};
use crate::value::tok::{buffer_is, spec_buf_text, spec_cursor, spec_marks, spec_retain, spec_write, with_data};
use crate::objects::{grew, CHAR_BITS, INT_BITS, STR_BITS};
use crate::vocabulary::Family;
use vstd::prelude::*;

verus! {

/// `(buf make text)`: a writable buffer over `text`, empty.
pub fn make(a_: &mut Objects, a: &[Obj]) -> (r: Result<Obj, Cond>)
    requires
        old(a_).wf(),
        a@.len() >= 1,
    ensures
        final(a_).only_grew(*old(a_)),
        r matches Ok(o) && (o.0 != 0 ==> buffer_is(final(a_).mem(), o, 0, 0, 0, a@[0], 0)),
{
    Ok(a_.buf_writable(a[0], 0, 0))
}

/// `(buf read b)`: the character at the cursor, advancing it; nil at the
/// write mark or the text's end.
pub fn read(a_: &mut Objects, a: &[Obj]) -> (r: Result<Obj, Cond>)
    requires
        old(a_).wf(),
        a@.len() >= 1,
    ensures
        final(a_).wf(),
        final(a_).same_rest(old(a_)),
        ({
            let s0 = old(a_).mem();
            let b = a@[0];
            let at = spec_cursor(s0, b);
            let t = spec_text(s0, spec_buf_text(s0, b));
            &&& (at >= spec_write(s0, b) || at >= t.len()) ==> r == Ok::<Obj, Cond>(Obj(0)) && final(a_).mem() == s0
            &&& (at < spec_write(s0, b) && at < t.len()) ==> (r matches Ok(c) && grew(
                with_data(s0, spec_marks(s0, b), 0, (at + 1) as u64),
                final(a_).mem(),
            ) && (c.0 != 0 ==> spec_is(final(a_).mem(), c, CHAR_BITS) && spec_data(final(a_).mem(), c, 0) == t[at as int] as u64)
                && (c.0 == 0 ==> s0.len() + 5 > crate::heap::MAX_WORDS - crate::objects::META_MAX)
                && t[at as int] != 0)
        }),
{
    let b = a[0];
    let text = a_.buf_text(b);
    let at = a_.buf_cursor(b);
    if at >= a_.buf_write(b) {
        return Ok(nil());
    }
    let bytes = a_.bytes_of(text);
    if at >= bytes.len() as u64 {
        return Ok(nil());
    }
    a_.set_buf_cursor(b, at + 1);
    let c = a_.char_new(bytes[at as usize] as u32);
    proof {
        if c.0 != 0 {
            assert(spec_data(a_.mem(), c, 0) == seq![bytes@[at as int] as u64][0]);
        }
    }
    Ok(c)
}

/// `(buf tok b)`: a fresh string of the text from the retain mark to the
/// cursor.
pub fn tok(a_: &mut Objects, a: &[Obj]) -> (r: Result<Obj, Cond>)
    requires
        old(a_).wf(),
        a@.len() >= 1,
    ensures
        final(a_).only_grew(*old(a_)),
        ({
            let s0 = old(a_).mem();
            let t = spec_text(s0, spec_buf_text(s0, a@[0]));
            let lo = if spec_retain(s0, a@[0]) < t.len() { spec_retain(s0, a@[0]) as int } else { t.len() as int };
            let hi = if spec_cursor(s0, a@[0]) < t.len() { spec_cursor(s0, a@[0]) as int } else { t.len() as int };
            r matches Ok(o) && (o.0 != 0 ==> spec_is(final(a_).mem(), o, STR_BITS) && stored_at(
                final(a_).mem(),
                spec_data(final(a_).mem(), o, 0),
                if lo <= hi { t.subrange(lo, hi) } else { Seq::empty() },
            ))
        }),
{
    let b = a[0];
    let text = a_.buf_text(b);
    let from = a_.buf_retain(b);
    let to = a_.buf_cursor(b);
    let bytes = a_.bytes_of(text);
    let n = bytes.len() as u64;
    let lo: u64 = if from < n {
        from
    } else {
        n
    };
    let hi: u64 = if to < n {
        to
    } else {
        n
    };
    let mut slice: Vec<u8> = Vec::new();
    let mut i: u64 = lo;
    while i < hi
        invariant
            lo <= i,
            i <= hi || lo > hi,
            hi <= n,
            n == bytes@.len(),
            lo <= hi ==> slice@ =~= bytes@.subrange(lo as int, i as int),
            lo > hi ==> slice@.len() == 0,
        decreases hi - i,
    {
        slice.push(bytes[i as usize]);
        i = i + 1;
    }
    Ok(a_.str_from_bytes(slice.as_slice()))
}

/// `(buf last-char b)`: the byte just before the cursor, as an integer; nil
/// at the start.
pub fn last_char(a_: &mut Objects, a: &[Obj]) -> (r: Result<Obj, Cond>)
    requires
        old(a_).wf(),
        a@.len() >= 1,
    ensures
        final(a_).only_grew(*old(a_)),
        ({
            let s0 = old(a_).mem();
            let at = spec_cursor(s0, a@[0]);
            let t = spec_text(s0, spec_buf_text(s0, a@[0]));
            &&& (at == 0 || at > t.len()) ==> r == Ok::<Obj, Cond>(Obj(0))
            &&& (0 < at <= t.len()) ==> (r matches Ok(o) && (o.0 != 0 ==> spec_is(final(a_).mem(), o, INT_BITS)
                && crate::obj::word_signed(spec_data(final(a_).mem(), o, 0)) == t[at - 1]))
        }),
{
    let b = a[0];
    let text = a_.buf_text(b);
    let at = a_.buf_cursor(b);
    let bytes = a_.bytes_of(text);
    if at == 0 || at > bytes.len() as u64 {
        proof {
            crate::objects::lemma_grew_refl(a_.mem());
        }
        return Ok(nil());
    }
    let v = bytes[(at - 1) as usize] as i64;
    proof {
        crate::obj::lemma_signed_word_round_trip(v);
    }
    let o = a_.int_new(v);
    proof {
        if o.0 != 0 {
            assert(spec_data(a_.mem(), o, 0) == seq![crate::obj::signed_word(v)][0]);
        }
    }
    Ok(o)
}

/// `(buf reset b)`: the cursor back to the retain mark.
pub fn reset(a_: &mut Objects, a: &[Obj]) -> (r: Result<Obj, Cond>)
    requires
        old(a_).wf(),
        a@.len() >= 1,
    ensures
        final(a_).wf(),
        final(a_).same_rest(old(a_)),
        final(a_).mem() == with_data(
            old(a_).mem(),
            spec_marks(old(a_).mem(), a@[0]),
            0,
            spec_retain(old(a_).mem(), a@[0]),
        ),
        r == Ok::<Obj, Cond>(a@[0]),
{
    let at = a_.buf_retain(a[0]);
    a_.set_buf_cursor(a[0], at);
    Ok(a[0])
}

/// `(buf append b c)`: the character's byte at the write mark, while the
/// text has room.
pub fn append(a_: &mut Objects, a: &[Obj]) -> (r: Result<Obj, Cond>)
    requires
        old(a_).wf(),
        a@.len() >= 2,
    ensures
        final(a_).wf(),
        r == Ok::<Obj, Cond>(a@[0]),
{
    let b = a[0];
    let text = a_.buf_text(b);
    let w = a_.buf_write(b);
    if w < a_.byte_len(text) as u64 {
        let at = a_.str_bytes(text);
        let ch = (a_.as_char(a[1]) % 256) as u8;
        a_.heap.set_byte(at.plus(w), ch);
        a_.set_buf_write(b, w + 1);
    }
    Ok(b)
}

/// `(buf retain b)`: the retain mark to the cursor; a writable buffer drops
/// what lies before it.
pub fn retain(a_: &mut Objects, a: &[Obj]) -> (r: Result<Obj, Cond>)
    requires
        old(a_).wf(),
        a@.len() >= 1,
    ensures
        final(a_).wf(),
        r == Ok::<Obj, Cond>(a@[0]),
{
    let b = a[0];
    let at = a_.buf_cursor(b);
    if a_.buf_ro(b) {
        a_.set_buf_retain(b, at);
        return Ok(b);
    }
    let text = a_.buf_text(b);
    let base = a_.str_bytes(text);
    let w = a_.buf_write(b);
    if at > w {
        return Ok(b);
    }
    let mut i: u64 = 0;
    while i < w - at
        invariant
            a_.wf(),
            at <= w,
            i <= w - at,
        decreases w - at - i,
    {
        let c = a_.heap.byte(base.plus(at + i));
        a_.heap.set_byte(base.plus(i), c);
        proof {
            crate::heap::lemma_set_byte_len(old(a_).mem(), 0, 0);
        }
        i = i + 1;
    }
    a_.set_buf_retain(b, 0);
    a_.set_buf_cursor(b, 0);
    a_.set_buf_write(b, w - at);
    Ok(b)
}

/// `(buf read-text b)`: the buffer after reading one character; nil at the
/// end or at a NUL.
pub fn read_text(a_: &mut Objects, a: &[Obj]) -> (r: Result<Obj, Cond>)
    requires
        old(a_).wf(),
        a@.len() >= 1,
    ensures
        final(a_).wf(),
        final(a_).same_rest(old(a_)),
        ({
            let s0 = old(a_).mem();
            let b = a@[0];
            let at = spec_cursor(s0, b);
            let t = spec_text(s0, spec_buf_text(s0, b));
            &&& (at >= spec_write(s0, b) || at >= t.len()) ==> r == Ok::<Obj, Cond>(Obj(0))
            &&& (at < spec_write(s0, b) && at < t.len()) ==> r == Ok::<Obj, Cond>(b) || r == Ok::<Obj, Cond>(Obj(0))
            &&& (at >= spec_write(s0, b) || at >= t.len()) ==> final(a_).mem() == s0
            &&& (at < spec_write(s0, b) && at < t.len()) ==> grew(
                with_data(s0, spec_marks(s0, b), 0, (at + 1) as u64),
                final(a_).mem(),
            )
            &&& (at < spec_write(s0, b) && at < t.len() && s0.len() + 5 <= crate::heap::MAX_WORDS
                - crate::objects::META_MAX) ==> r == Ok::<Obj, Cond>(b)
        }),
{
    let b = a[0];
    let got = match read(a_, a) {
        Ok(v) => v,
        Err(c) => {
            return Err(c);
        },
    };
    if got.0 == 0 {
        return Ok(nil());
    }
    if a_.as_char(got) == 0 {
        return Ok(nil());
    }
    Ok(b)
}


// --- the analyse contest -------------------------------------------------------

/// The claim an analyse handler makes when it stops without accepting: the
/// span it consumed past the retain mark, signed as its score, or none where
/// it consumed nothing or left the score at zero.
pub open spec fn spec_judge(c: u64, rt: u64, scored: i64) -> Option<i64> {
    let consumed: int = if c > rt { c - rt } else { 0 };
    if consumed > 0 && scored != 0 {
        let k: int = if consumed <= 0x7fff_ffff_ffff_ffff { consumed } else { 0x7fff_ffff_ffff_ffff };
        Some((if scored < 0 { -k } else { k }) as i64)
    } else {
        None
    }
}

/// The claim `spec_judge` names.
pub fn judge(c: u64, rt: u64, scored: i64) -> (r: Option<i64>)
    ensures
        r == spec_judge(c, rt, scored),
{
    let consumed: u64 = if c > rt {
        c - rt
    } else {
        0
    };
    if consumed > 0 && scored != 0 {
        let k: i64 = if consumed <= 0x7fff_ffff_ffff_ffff {
            consumed as i64
        } else {
            0x7fff_ffff_ffff_ffff
        };
        if scored < 0 {
            Some(-k)
        } else {
            Some(k)
        }
    } else {
        None
    }
}

/// Whether a claim of `score` beats the best claim so far: the first claim
/// always does; after that a claim at least as long as the best does, and
/// while the best is below one, any claim does.
pub open spec fn spec_beats(score: i64, best: Option<(Obj, i64)>) -> bool {
    match best {
        None => true,
        Some(w) => score >= w.1 || (w.1 < 1 && score <= w.1),
    }
}

/// The winner of a contest whose claims, in the order they were made, are
/// `claims`: each claim replaces the winner so far when it beats it.
pub open spec fn spec_pick(claims: Seq<(Obj, i64)>) -> Option<(Obj, i64)>
    decreases claims.len(),
{
    if claims.len() == 0 {
        None
    } else {
        let prev = spec_pick(claims.drop_last());
        if spec_beats(claims.last().1, prev) {
            Some(claims.last())
        } else {
            prev
        }
    }
}

/// Claims a contest over `types` can have produced: each by one of the
/// types, and none of zero length.
pub open spec fn claims_from(claims: Seq<(Obj, i64)>, types: Seq<Obj>) -> bool {
    forall|i: int| 0 <= i < claims.len() ==> types.contains(#[trigger] claims[i].0) && claims[i].1 != 0
}

/// No type of `types` holds a non-nil handler of family `f`.
pub open spec fn no_type_handlers(s: Seq<u64>, types: Seq<Obj>, f: Family) -> bool {
    forall|k: int, j: int|
        0 <= k < types.len() && types[k].0 != 0 && 0 <= j < spec_handlers(
            s,
            crate::value::typed::spec_type_handler(s, types[k], f),
        ).len() ==> (#[trigger] spec_handlers(s, crate::value::typed::spec_type_handler(s, types[k], f))[j]).0 == 0
}

/// Does `score` beat `best`?
pub fn better(score: i64, best: Option<(Obj, i64)>) -> (r: bool)
    ensures
        r == spec_beats(score, best),
{
    match best {
        None => true,
        Some(w) => score >= w.1 || (w.1 < 1 && score <= w.1),
    }
}

/// The contest's winner is one of its claims, and there is a winner exactly
/// when there was a claim.
pub proof fn law_winner_is_a_claim(claims: Seq<(Obj, i64)>)
    ensures
        spec_pick(claims) is None <==> claims.len() == 0,
        spec_pick(claims) matches Some(w) ==> claims.contains(w),
    decreases claims.len(),
{
    if claims.len() > 0 {
        let prev = claims.drop_last();
        law_winner_is_a_claim(prev);
        if let Some(w) = spec_pick(prev) {
            let i = choose|i: int| 0 <= i < prev.len() && prev[i] == w;
            assert(claims[i] == w);
        }
        assert(claims[claims.len() - 1] == claims.last());
    }
}

/// A positive claim beats every claim that is not positive: once one is
/// made, the winner's score is positive and at least every positive score
/// claimed.
pub proof fn law_longest_positive_claim_wins(claims: Seq<(Obj, i64)>)
    requires
        exists|i: int| 0 <= i < claims.len() && claims[i].1 > 0,
    ensures
        spec_pick(claims) matches Some(w) && w.1 > 0 && forall|i: int|
            0 <= i < claims.len() && claims[i].1 > 0 ==> claims[i].1 <= w.1,
    decreases claims.len(),
{
    let prev = claims.drop_last();
    let last = claims.last();
    if exists|i: int| 0 <= i < prev.len() && prev[i].1 > 0 {
        law_longest_positive_claim_wins(prev);
        assert forall|i: int| 0 <= i < claims.len() && claims[i].1 > 0 implies claims[i].1
            <= spec_pick(claims).unwrap().1 by {
            if i < prev.len() {
                assert(prev[i] == claims[i]);
            }
        }
    } else {
        assert(last.1 > 0) by {
            let i = choose|i: int| 0 <= i < claims.len() && claims[i].1 > 0;
            if i < prev.len() {
                assert(prev[i] == claims[i]);
            }
        }
        law_winner_is_a_claim(prev);
        if let Some(w) = spec_pick(prev) {
            let j = choose|j: int| 0 <= j < prev.len() && prev[j] == w;
            assert(w.1 <= 0);
        }
        assert forall|i: int| 0 <= i < claims.len() && claims[i].1 > 0 implies claims[i].1
            <= spec_pick(claims).unwrap().1 by {
            if i < prev.len() {
                assert(prev[i] == claims[i]);
            }
        }
    }
}

/// Ties go to the later claim: a claim as long as the winner so far, made
/// after it, takes its place.
pub proof fn law_later_claim_takes_a_tie(claims: Seq<(Obj, i64)>, c: (Obj, i64))
    requires
        spec_pick(claims) matches Some(w) && w.1 == c.1,
    ensures
        spec_pick(claims.push(c)) == Some(c),
{
    assert(claims.push(c).drop_last() =~= claims);
}

/// While no claim is positive, the latest claim wins.
pub proof fn law_without_a_positive_claim_the_last_wins(claims: Seq<(Obj, i64)>)
    requires
        claims.len() > 0,
        forall|i: int| 0 <= i < claims.len() ==> claims[i].1 <= 0,
    ensures
        spec_pick(claims) == Some(claims.last()),
{
    let prev = claims.drop_last();
    law_winner_is_a_claim(prev);
    if let Some(w) = spec_pick(prev) {
        let j = choose|j: int| 0 <= j < prev.len() && prev[j] == w;
        assert(prev[j] == claims[j]);
    }
}

/// How far a claim reaches: its magnitude.
pub fn span_of(claim: i64) -> (r: u64)
    ensures
        r == if claim < 0 { -claim } else { claim as int },
{
    if claim < 0 {
        let up: i64 = claim + 1;
        let m: i64 = 0 - up;
        let mu: u64 = m as u64;
        mu + 1
    } else {
        claim as u64
    }
}

/// The handlers a handler slot holds: the elements of a list, or the slot
/// itself.
pub open spec fn spec_handlers(s: Seq<u64>, slot: Obj) -> Seq<Obj> {
    if spec_is(s, slot, PAIR_BITS) || spec_is(s, slot, SPAIR_BITS) {
        spec_walk(s, slot, s.len(), false)
    } else {
        seq![slot]
    }
}

/// No type filed in the type-alist `alist` holds a non-nil handler of
/// family `f`.
pub open spec fn no_handlers(s: Seq<u64>, alist: Obj, f: Family) -> bool {
    let entries = spec_walk(s, alist, s.len(), true);
    forall|k: int, j: int|
        0 <= k < entries.len() && 0 <= j < spec_handlers(
            s,
            crate::value::typed::spec_type_handler(s, Obj(spec_data(s, entries[k], 1)), f),
        ).len() ==> (#[trigger] spec_handlers(
            s,
            crate::value::typed::spec_type_handler(s, Obj(spec_data(s, entries[k], 1)), f),
        )[j]).0 == 0
}

impl Engine {
    /// The handlers a slot holds: a list's elements, or the slot alone.
    pub fn handler_list(&self, slot: Obj) -> (r: Vec<Obj>)
        requires
            self.wf(),
        ensures
            (spec_is(self.objects.mem(), slot, PAIR_BITS) || spec_is(self.objects.mem(), slot, SPAIR_BITS))
                ==> r@ == spec_walk(self.objects.mem(), slot, self.objects.mem().len(), false),
            !(spec_is(self.objects.mem(), slot, PAIR_BITS) || spec_is(self.objects.mem(), slot, SPAIR_BITS))
                ==> r@ == seq![slot],
    {
        if self.objects.is_cell(slot) {
            self.objects.list(slot)
        } else {
            let mut v: Vec<Obj> = Vec::new();
            v.push(slot);
            v
        }
    }

    /// The types filed in a type-alist: the rest of each entry, in order.
    /// The alist's cells are spine pairs, so the walk follows both kinds.
    pub fn types_of(&self, alist: Obj) -> (r: Vec<Obj>)
        requires
            self.wf(),
        ensures
            r@.len() == spec_walk(self.objects.mem(), alist, self.objects.mem().len(), true).len(),
            forall|i: int| 0 <= i < r@.len() ==> (#[trigger] r@[i]).0 == spec_data(
                self.objects.mem(),
                spec_walk(self.objects.mem(), alist, self.objects.mem().len(), true)[i],
                1,
            ),
    {
        let entries = self.objects.cells(alist);
        let mut out: Vec<Obj> = Vec::new();
        let mut i: usize = 0;
        while i < entries.len()
            invariant
                i <= entries@.len(),
                entries@ == spec_walk(self.objects.mem(), alist, self.objects.mem().len(), true),
                out@.len() == i,
                forall|k: int| 0 <= k < i ==> (#[trigger] out@[k]).0 == spec_data(self.objects.mem(), entries@[k], 1),
            decreases entries@.len() - i,
        {
            out.push(self.objects.rest(entries[i]));
            i = i + 1;
        }
        out
    }

    /// The cursor back to the buffer's retain mark.
    fn rewind(&mut self, buf: Obj)
        requires
            old(self).wf(),
        ensures
            final(self).wf(),
            final(self).objects.same_rest(&old(self).objects),
            final(self).objects.mem().len() == old(self).objects.mem().len(),
            final(self).base_syms == old(self).base_syms,
            final(self).objects.mem() == with_data(
                old(self).objects.mem(),
                spec_marks(old(self).objects.mem(), buf),
                0,
                spec_retain(old(self).objects.mem(), buf),
            ),
    {
        let start = self.objects.buf_retain(buf);
        self.objects.set_buf_cursor(buf, start);
    }

    /// One analyser's attempt at the text from the buffer's retain mark: it
    /// is fed a character at a time and answers the next state, the buffer
    /// to keep going, nil to decline, or the score object to accept with the
    /// length written there. Text that ends with a score already set claims
    /// what was consumed, with the score's sign. The claim, or None.
    pub fn attempt(&mut self, h: Obj, buf: Obj, score: Obj, env: EnvId, fuel: u64) -> (r: Result<Option<i64>, Cond>)
        requires
            old(self).wf(),
        ensures
            final(self).wf(),
            r matches Ok(Some(n)) ==> n != 0,
            ({
                let s = old(self).objects.mem();
                let at = spec_cursor(s, buf);
                at >= spec_write(s, buf) || at >= spec_text(s, spec_buf_text(s, buf)).len() ==> r == Ok::<
                    Option<i64>,
                    Cond,
                >(spec_judge(at, spec_retain(s, buf), crate::obj::word_signed(spec_data(s, score, 0))))
            }),
        decreases fuel, 6u64,
    {
        let mut state = h;
        let mut accepted: Option<i64> = None;
        let mut finished = false;
        let mut budget: u64 = u64::MAX;
        let ghost s0 = old(self).objects.mem();
        let ghost empty0 = spec_cursor(s0, buf) >= spec_write(s0, buf) || spec_cursor(s0, buf) >= spec_text(
            s0,
            spec_buf_text(s0, buf),
        ).len();
        while budget > 0
            invariant_except_break
                empty0 ==> self.objects.mem() == s0 && budget == u64::MAX && accepted is None && !finished,
            invariant
                self.wf(),
                s0 == old(self).objects.mem(),
                empty0 == (spec_cursor(s0, buf) >= spec_write(s0, buf) || spec_cursor(s0, buf) >= spec_text(
                    s0,
                    spec_buf_text(s0, buf),
                ).len()),
            ensures
                empty0 ==> self.objects.mem() == s0 && accepted is None && finished,
            decreases budget,
        {
            budget = budget - 1;
            let mut one: Vec<Obj> = Vec::new();
            one.push(buf);
            let chr = match read(&mut self.objects, one.as_slice()) {
                Ok(v) => v,
                Err(c) => {
                    return Err(c);
                },
            };
            if chr.0 == 0 {
                finished = true;
                break;
            }
            let mut vals: Vec<Obj> = Vec::new();
            vals.push(buf);
            vals.push(score);
            vals.push(chr);
            let next = match self.call_with_values(state, vals, env, fuel) {
                Ok(v) => v,
                Err(c) => {
                    return Err(c);
                },
            };
            if next.0 == 0 {
                self.rewind(buf);
                return Ok(None);
            }
            if next.0 != buf.0 {
                if next.0 == score.0 {
                    accepted = Some(self.objects.as_int(score));
                    finished = true;
                    break;
                }
                state = next;
            }
        }
        if !finished {
            return Err(Cond::TooDeep);
        }
        match accepted {
            Some(n) => {
                if n != 0 {
                    Ok(Some(n))
                } else {
                    Ok(None)
                }
            },
            None => {
                let c = self.objects.buf_cursor(buf);
                let rt = self.objects.buf_retain(buf);
                let scored = self.objects.as_int(score);
                Ok(judge(c, rt, scored))
            },
        }
    }

    /// THE ANALYSE CONTEST: every analyse handler of every type, in order,
    /// attempts the text at the buffer's retain mark, the cursor rewound
    /// between attempts; each claim replaces the winner so far when it beats
    /// it. The winning type and its claim, or None when nothing claimed.
    pub fn analyse(&mut self, types: &Vec<Obj>, buf: Obj, env: EnvId, fuel: u64) -> (r: Result<
        Option<(Obj, i64)>,
        Cond,
    >)
        requires
            old(self).wf(),
        ensures
            final(self).wf(),
            r matches Ok(w) ==> exists|claims: Seq<(Obj, i64)>|
                claims_from(claims, types@) && w == spec_pick(claims),
            types@.len() == 0 ==> r == Ok::<Option<(Obj, i64)>, Cond>(None),
            no_type_handlers(old(self).objects.mem(), types@, Family::Analyse) ==> r == Ok::<
                Option<(Obj, i64)>,
                Cond,
            >(None) && *final(self) == *old(self),
        decreases fuel, 7u64,
    {
        let mut score = nil();
        let mut best: Option<(Obj, i64)> = None;
        let ghost mut claims: Seq<(Obj, i64)> = Seq::empty();
        let ghost s0 = old(self).objects.mem();
        let ghost quiet = no_type_handlers(s0, types@, Family::Analyse);
        let mut ti: usize = 0;
        while ti < types.len()
            invariant
                self.wf(),
                ti <= types@.len(),
                claims_from(claims, types@),
                best == spec_pick(claims),
                ti == 0 ==> claims.len() == 0,
                s0 == old(self).objects.mem(),
                quiet == no_type_handlers(s0, types@, Family::Analyse),
                quiet ==> *self == *old(self) && best is None,
            decreases types@.len() - ti,
        {
            let ty = types[ti];
            proof {
                assert(types@[ti as int] == ty);
            }
            let ghost k = ti as int;
            ti = ti + 1;
            if ty.0 != 0 {
                let slot = self.objects.type_handler(ty, Family::Analyse);
                if slot.0 != 0 {
                    let hs = self.handler_list(slot);
                    proof {
                        if quiet {
                            assert(hs@ == spec_handlers(s0, slot));
                        }
                    }
                    let mut hi: usize = 0;
                    while hi < hs.len()
                        invariant
                            self.wf(),
                            hi <= hs@.len(),
                            types@.contains(ty),
                            claims_from(claims, types@),
                            best == spec_pick(claims),
                            s0 == old(self).objects.mem(),
                            quiet == no_type_handlers(s0, types@, Family::Analyse),
                            quiet ==> *self == *old(self) && best is None,
                            quiet ==> hs@ == spec_handlers(
                                s0,
                                crate::value::typed::spec_type_handler(s0, types@[k], Family::Analyse),
                            ),
                            0 <= k < types@.len(),
                            types@[k] == ty,
                            ty.0 != 0,
                        decreases hs@.len() - hi,
                    {
                        let h = hs[hi];
                        proof {
                            if quiet {
                                assert(spec_handlers(
                                    s0,
                                    crate::value::typed::spec_type_handler(s0, types@[k], Family::Analyse),
                                )[hi as int].0 == 0);
                            }
                        }
                        hi = hi + 1;
                        if h.0 != 0 {
                            if score.0 == 0 {
                                score = self.objects.int_new(0);
                            }
                            self.objects.set_data(score, 0, Word(0));
                            let got = match self.attempt(h, buf, score, env, fuel) {
                                Ok(g) => g,
                                Err(c) => {
                                    return Err(c);
                                },
                            };
                            match got {
                                Some(n) => {
                                    let ghost before = claims;
                                    if better(n, best) {
                                        best = Some((ty, n));
                                    }
                                    proof {
                                        claims = before.push((ty, n));
                                        assert(claims.drop_last() =~= before);
                                    }
                                },
                                None => {},
                            }
                            self.rewind(buf);
                        }
                    }
                }
            }
        }
        Ok(best)
    }
}

/// `l` lists the tokens `toks`, none of them nil, wherever the heap had
/// room to build the list.
pub open spec fn token_list(s: Seq<u64>, l: Obj, toks: Seq<Obj>) -> bool {
    &&& forall|i: int| 0 <= i < toks.len() ==> (#[trigger] toks[i]).0 != 0
    &&& room_for_pairs(s.len(), toks.len()) ==> crate::value::pair::spec_list_at(s, l, toks)
}

/// `l` lists some tokens, none of them nil.
pub open spec fn tokens_listed(s: Seq<u64>, l: Obj) -> bool {
    exists|toks: Seq<Obj>| #[trigger] token_list(s, l, toks)
}

/// A base that holds no catalog and no registered type: nothing claims a
/// position of a text it drives, and nothing falls back to the engine's
/// reader.
pub open spec fn claims_nothing(s: Seq<u64>, target: Obj) -> bool {
    &&& crate::base::spec_route(s, target, crate::base::PRIMS as nat).0 == 0
    &&& spec_walk(s, crate::base::spec_route(s, target, crate::base::TYPE_ALIST as nat), s.len(), true).len() == 0
}

impl Engine {
    /// `(tok read-str target text)`: drive the types of `target`'s type-alist
    /// over `text`, answering the list of tokens read. At each position the
    /// contest runs in `target`; the winner's read handlers run on the
    /// claimed span, the first non-nil answer is the token, and a type with
    /// no read handler discards its span. Where nothing claims, a base with
    /// a catalog reads one form with the engine's own reader, dropping an
    /// atom that runs undelimited to the end; a token base stops. A reader
    /// that declines, or a read that would not move past the claim, stops
    /// the drive.
    pub fn read_str(&mut self, target: Obj, text: Obj, fuel: u64) -> (r: Result<Obj, Cond>)
        requires
            old(self).wf(),
        ensures
            final(self).wf(),
            spec_text(old(self).objects.mem(), text).len() == 0 ==> r == Ok::<Obj, Cond>(Obj(0)),
            claims_nothing(old(self).objects.mem(), target) ==> r == Ok::<Obj, Cond>(Obj(0)),
            r is Ok ==> tokens_listed(final(self).objects.mem(), r->Ok_0),
        decreases fuel, 11u64,
    {
        let len = self.objects.bytes_of(text).len() as u64;
        let falls_back = crate::base::catalog_of(&self.objects, target).0 != 0;
        let alist = crate::base::get(&self.objects, target, crate::base::TYPE_ALIST);
        let types = self.types_of(alist);
        let ghost quiet = len == 0 || (!falls_back && types@.len() == 0);
        let ghost s0 = old(self).objects.mem();
        let ghost asked_quiet = spec_text(s0, text).len() == 0 || claims_nothing(s0, target);
        assert(asked_quiet ==> quiet);
        let env = self.root_env();
        let mut tokens: Vec<Obj> = Vec::new();
        let buf = self.objects.buf(text, 0);
        let prev = self.objects.base;
        let mut budget: u64 = u64::MAX;
        while budget > 0
            invariant
                self.wf(),
                quiet == (len == 0 || (!falls_back && types@.len() == 0)),
                quiet ==> tokens@.len() == 0,
                asked_quiet ==> quiet,
                asked_quiet == (spec_text(s0, text).len() == 0 || claims_nothing(s0, target)),
                s0 == old(self).objects.mem(),
                forall|i: int| 0 <= i < tokens@.len() ==> (#[trigger] tokens@[i]).0 != 0,
            decreases budget,
        {
            budget = budget - 1;
            let at = self.objects.buf_retain(buf);
            if at >= len {
                break;
            }
            self.enter(target);
            let claim = self.analyse(&types, buf, env, fuel);
            self.enter(prev);
            let claim = match claim {
                Ok(c) => c,
                Err(c) => {
                    return Err(c);
                },
            };
            match claim {
                None => {
                    if !falls_back {
                        break;
                    }
                    let scratch = self.objects.buf(text, at);
                    self.enter(target);
                    let form = self.read_form_in(scratch, fuel);
                    self.enter(prev);
                    let form = match form {
                        Ok(Some(f)) => f,
                        Ok(None) => {
                            break;
                        },
                        Err(c) => {
                            return Err(c);
                        },
                    };
                    if form.0 == 0 {
                        break;
                    }
                    let pos = self.objects.buf_cursor(scratch);
                    if pos >= len && pos > 0 {
                        let last = self.objects.buf_text(scratch);
                        let tail = self.objects.heap.byte(self.objects.str_bytes(last).plus(pos - 1));
                        if !(crate::read::is_blank(tail) || tail == 41 || tail == 59) {
                            break;
                        }
                    }
                    tokens.push(form);
                    self.objects.set_buf_retain(buf, pos);
                    self.objects.set_buf_cursor(buf, pos);
                },
                Some((ty, claim)) => {
                    let n = span_of(claim);
                    if n == 0 {
                        break;
                    }
                    let end_of_claim = crate::obj::add_wrapping(at, n);
                    self.objects.set_buf_cursor(buf, end_of_claim);
                    let reader = self.objects.type_handler(ty, Family::Read);
                    if reader.0 == 0 {
                        self.objects.set_buf_retain(buf, end_of_claim);
                    } else {
                        let rs = self.handler_list(reader);
                        let mut token = nil();
                        let mut i: usize = 0;
                        while i < rs.len()
                            invariant
                                self.wf(),
                                i <= rs@.len(),
                                !quiet,
                                asked_quiet ==> quiet,
                                asked_quiet == (spec_text(s0, text).len() == 0 || claims_nothing(s0, target)),
                                s0 == old(self).objects.mem(),
                                forall|q: int| 0 <= q < tokens@.len() ==> (#[trigger] tokens@[q]).0 != 0,
                            decreases rs@.len() - i,
                        {
                            self.objects.set_buf_cursor(buf, end_of_claim);
                            let mut vals: Vec<Obj> = Vec::new();
                            vals.push(buf);
                            self.enter(target);
                            let got = self.call_with_values(rs[i], vals, env, fuel);
                            self.enter(prev);
                            let got = match got {
                                Ok(v) => v,
                                Err(c) => {
                                    return Err(c);
                                },
                            };
                            if got.0 != 0 {
                                token = got;
                                break;
                            }
                            i = i + 1;
                        }
                        if token.0 == 0 {
                            break;
                        }
                        tokens.push(token);
                        let end = self.objects.buf_cursor(buf);
                        let keep = if end > end_of_claim {
                            end
                        } else {
                            end_of_claim
                        };
                        self.objects.set_buf_retain(buf, keep);
                        if keep <= at {
                            break;
                        }
                    }
                },
            }
        }
        if tokens.len() == 0 {
            proof {
                assert(token_list(self.objects.mem(), Obj(0), Seq::<Obj>::empty()));
                assert(tokens_listed(self.objects.mem(), Obj(0)));
            }
            return Ok(nil());
        }
        let ghost mid = self.objects.mem();
        let list = self.objects.list_from(&tokens);
        proof {
            assert(room_for_pairs(self.objects.mem().len(), tokens@.len()) ==> room_for_pairs(mid.len(), tokens@.len()));
            assert(token_list(self.objects.mem(), list, tokens@));
            assert(tokens_listed(self.objects.mem(), list));
        }
        Ok(list)
    }

    /// `(base make-tok)`: a base with an empty type-alist and no catalog,
    /// binding only `#t` and `#f`.
    pub fn make_tok(&mut self) -> (r: Obj)
        requires
            old(self).wf(),
        ensures
            final(self).wf(),
            final(self).base_syms@.len() == old(self).base_syms@.len() + 1,
            forall|i: int| 0 <= i < old(self).base_syms@.len() ==> final(self).base_syms@[i] == old(self).base_syms@[i],
            final(self).base_syms@.last().0 == r,
            final(self).base_syms@.last().1@.len() == 0,
    {
        let env = self.envs.push_root(&mut self.objects);
        let t = self.objects.sym_shared(crate::vocabulary::TRUE);
        self.envs.bind(&mut self.objects, env, t, t);
        let f = self.objects.sym_shared(crate::vocabulary::FALSE);
        let fo = self.objects.false_obj();
        self.envs.bind(&mut self.objects, env, f, fo);
        let base = crate::base::build(&mut self.objects, nil(), env);
        self.envs.set_base(&mut self.objects, env, base);
        self.base_syms.push((base, crate::symbols::Symbols::new()));
        base
    }

    /// `(base make-type target "NAME" handlers)`: a type named by a fresh
    /// handle, filed as `(handle . type)` at the head of `target`'s
    /// type-alist; answers the handle.
    pub fn make_type(&mut self, target: Obj, name_text: Obj, handlers: Obj) -> (r: Obj)
        requires
            old(self).wf(),
        ensures
            final(self).wf(),
    {
        let bytes = self.objects.bytes_of(name_text);
        let name = self.objects.handle_bytes(bytes.as_slice());
        let ty = self.objects.type_new(name, handlers);
        let entry = self.objects.spair(name, ty);
        let head = crate::base::get(&self.objects, target, crate::base::TYPE_ALIST);
        let cell = self.objects.spair(entry, head);
        crate::base::set(&mut self.objects, target, crate::base::TYPE_ALIST, cell);
        name
    }
}

} // verus!
