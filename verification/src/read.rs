//! The reader: bytes in a buffer to forms.
//!
//! Lists, dotted tails, strings with escapes, character literals, comments,
//! integers and symbols. A buffer over a stream refills one byte at a time as
//! the reader reaches its write mark; end of input latches the file row's
//! descriptor to its complement.

use crate::heap::spec_byte;
use crate::obj::{nil, wrap_add, Obj, Word};
use crate::objects::{spec_data, spec_is, spec_slot, Objects};
use crate::value::tok::{spec_buf_text, spec_cursor, spec_marks, spec_write, with_data};
use vstd::prelude::*;
use vstd::string::StringSliceAdditionalSpecFns;

verus! {

/// How deep lists may nest.
pub const READ_DEPTH: u64 = 2000;

/// The value of a hex digit, of either case.
pub open spec fn spec_hex_digit(b: u8) -> Option<u8> {
    if 48 <= b <= 57 {
        Some((b - 48) as u8)
    } else if 97 <= b <= 102 {
        Some((b - 87) as u8)
    } else if 65 <= b <= 70 {
        Some((b - 55) as u8)
    } else {
        None
    }
}

/// The value of a hex digit.
pub fn hex_digit(b: u8) -> (r: Option<u8>)
    ensures
        r == spec_hex_digit(b),
        r matches Some(v) ==> v < 16,
{
    if b >= 48 && b <= 57 {
        Some(b - 48)
    } else if b >= 97 && b <= 102 {
        Some(b - 97 + 10)
    } else if b >= 65 && b <= 70 {
        Some(b - 65 + 10)
    } else {
        None
    }
}

/// Hex digits are case-blind: a letter from `a` to `f` is a digit worth
/// what its capital from `A` to `F` is worth, ten to fifteen; `0` to `9` are
/// worth themselves; no other byte is a digit.
pub proof fn law_hex_digits_are_case_blind(b: u8)
    ensures
        48 <= b <= 57 ==> spec_hex_digit(b) == Some((b - 48) as u8),
        65 <= b <= 70 ==> spec_hex_digit(b) == Some((b - 55) as u8),
        97 <= b <= 102 ==> spec_hex_digit(b) is Some && spec_hex_digit(b) == spec_hex_digit((b - 32) as u8),
        !(48 <= b <= 57 || 65 <= b <= 70 || 97 <= b <= 102) ==> spec_hex_digit(b) is None,
        spec_hex_digit(b) matches Some(v) ==> v < 16,
{
}

/// Whether `b` spells a hex digit, in either case.
pub open spec fn is_hex_char(b: u8) -> bool {
    48 <= b <= 57 || 65 <= b <= 70 || 97 <= b <= 102
}

/// The value a hex digit spells: `0`-`9` are 0-9, `a`-`f` and `A`-`F` are
/// 10-15.
pub open spec fn hex_char_value(b: u8) -> int {
    if b <= 57 {
        b - 48
    } else if b >= 97 {
        b - 87
    } else {
        b - 55
    }
}

/// In a string literal, `\x` and two hex digits of either case spell the one
/// byte those digits give, high digit first, and the literal goes on after
/// them.
pub proof fn law_a_hex_escape_spells_one_byte(p: Seq<u8>)
    requires
        p.len() >= 4,
        p[0] == 92,
        p[1] == 120,
        is_hex_char(p[2]),
        is_hex_char(p[3]),
    ensures
        spec_escape(p).1 == 4,
        spec_escape(p).0 == seq![(hex_char_value(p[2]) * 16 + hex_char_value(p[3])) as u8],
        spec_string_body(p).0 == seq![(hex_char_value(p[2]) * 16 + hex_char_value(p[3])) as u8]
            + spec_string_body(p.subrange(4, p.len() as int)).0,
        spec_string_body(p).1 == 4 + spec_string_body(p.subrange(4, p.len() as int)).1,
{
}

/// Space, tab, newline, form feed, carriage return.
pub open spec fn spec_blank(c: u8) -> bool {
    c == 32 || c == 9 || c == 10 || c == 12 || c == 13
}

pub fn is_blank(c: u8) -> (r: bool)
    ensures
        r == spec_blank(c),
{
    c == 32 || c == 9 || c == 10 || c == 12 || c == 13
}

/// An ASCII letter.
pub fn is_alpha(c: u8) -> (r: bool)
    ensures
        r == ((65 <= c <= 90) || (97 <= c <= 122)),
{
    (c >= 65 && c <= 90) || (c >= 97 && c <= 122)
}

/// The decimal value of a run of digits.
pub open spec fn spec_digits(b: Seq<u8>) -> int
    decreases b.len(),
{
    if b.len() == 0 {
        0
    } else {
        spec_digits(b.drop_last()) * 10 + (b.last() - 48)
    }
}

/// Every byte a decimal digit.
pub open spec fn all_digits(b: Seq<u8>) -> bool {
    forall|i: int| 0 <= i < b.len() ==> 48 <= #[trigger] b[i] <= 57
}

/// What a token spells as an integer: an optional sign, then one or more
/// decimal digits, within range.
pub open spec fn spec_parse_int(b: Seq<u8>) -> Option<int> {
    let neg = b.len() > 0 && b[0] == 45;
    let signed = b.len() > 0 && (b[0] == 45 || b[0] == 43);
    let d = if signed { b.drop_first() } else { b };
    if d.len() == 0 || !all_digits(d) {
        None
    } else {
        let v = if neg { -spec_digits(d) } else { spec_digits(d) };
        if i64::MIN <= v <= i64::MAX {
            Some(v)
        } else {
            None
        }
    }
}

proof fn lemma_digits_push(b: Seq<u8>, c: u8)
    ensures
        spec_digits(b.push(c)) == spec_digits(b) * 10 + (c - 48),
{
    assert(b.push(c).drop_last() =~= b);
}

proof fn lemma_digits_nonneg(b: Seq<u8>)
    requires
        all_digits(b),
    ensures
        spec_digits(b) >= 0,
    decreases b.len(),
{
    if b.len() > 0 {
        assert(all_digits(b.drop_last()));
        lemma_digits_nonneg(b.drop_last());
    }
}

/// A non-negative integer's decimal spelling is a run of digits whose value
/// is the integer.
proof fn lemma_decimal_digits(n: int)
    requires
        n >= 0,
    ensures
        crate::diag::spec_decimal(n).len() > 0,
        all_digits(crate::diag::spec_decimal(n)),
        spec_digits(crate::diag::spec_decimal(n)) == n,
    decreases n,
{
    let d = crate::diag::spec_decimal(n);
    if n < 10 {
        assert(d == seq![(48 + n) as u8]);
        assert(d.drop_last() =~= Seq::<u8>::empty());
        assert(d.last() == 48 + n);
        assert(spec_digits(d) == spec_digits(d.drop_last()) * 10 + (d.last() - 48));
    } else {
        let head = crate::diag::spec_decimal(n / 10);
        lemma_decimal_digits(n / 10);
        let c = (48 + n % 10) as u8;
        assert(d == head.push(c)) by {
            assert(head + seq![c] =~= head.push(c));
        }
        lemma_digits_push(head, c);
        assert(c == 48 + n % 10);
        assert((n / 10) * 10 + n % 10 == n);
        assert(all_digits(d)) by {
            assert forall|i: int| 0 <= i < d.len() implies 48 <= #[trigger] d[i] <= 57 by {
                if i < head.len() {
                    assert(d[i] == head[i]);
                }
            }
        }
    }
}

/// Reading back what printing wrote: the decimal spelling of any machine
/// integer parses as that integer.
pub proof fn law_printed_integers_read_back(v: i64)
    ensures
        spec_parse_int(crate::diag::spec_decimal(v as int)) == Some(v as int),
{
    let d = crate::diag::spec_decimal(v as int);
    if v < 0 {
        lemma_decimal_digits(-(v as int));
        assert(d == seq![45u8] + crate::diag::spec_decimal(-(v as int)));
        assert(d.drop_first() =~= crate::diag::spec_decimal(-(v as int)));
    } else {
        lemma_decimal_digits(v as int);
        assert(48 <= d[0] <= 57);
    }
}

/// A token as an integer, the way `str::parse::<i64>` reads one.
pub fn parse_int(b: &[u8]) -> (r: Option<i64>)
    ensures
        r matches Some(v) ==> spec_parse_int(b@) == Some(v as int),
        r is None ==> spec_parse_int(b@) is None,
{
    let n = b.len();
    if n == 0 {
        return None;
    }
    let neg = b[0] == 45;
    let signed = b[0] == 45 || b[0] == 43;
    let start: usize = if signed {
        1
    } else {
        0
    };
    if start >= n {
        proof {
            assert(b@.drop_first().len() == 0);
        }
        return None;
    }
    let ghost d = if signed {
        b@.drop_first()
    } else {
        b@
    };
    let mut acc: u64 = 0;
    let limit: u64 = if neg {
        0x8000_0000_0000_0000u64
    } else {
        0x7fff_ffff_ffff_ffffu64
    };
    let mut i: usize = start;
    while i < n
        invariant
            start <= i <= n,
            n == b@.len(),
            d == b@.subrange(start as int, n as int),
            all_digits(b@.subrange(start as int, i as int)),
            acc == spec_digits(b@.subrange(start as int, i as int)),
            acc <= limit,
            limit <= 0x8000_0000_0000_0000u64,
            limit >= 0x7fff_ffff_ffff_ffffu64,
            signed ==> start == 1,
            !signed ==> start == 0,
            neg ==> signed,
            neg == (b@[0] == 45),
            signed == (b@[0] == 45 || b@[0] == 43),
            limit == if neg { 0x8000_0000_0000_0000u64 } else { 0x7fff_ffff_ffff_ffffu64 },
        decreases n - i,
    {
        let c = b[i];
        if c < 48 || c > 57 {
            proof {
                assert(d[i - start] == c);
                assert(!all_digits(d));
                if signed {
                    assert(d =~= b@.drop_first());
                } else {
                    assert(d =~= b@);
                }
            }
            return None;
        }
        let digit: u64 = (c - 48) as u64;
        if acc > (limit - digit) / 10 {
            proof {
                let s = b@.subrange(start as int, i as int);
                let s2 = b@.subrange(start as int, (i + 1) as int);
                assert(s2 =~= s.push(c));
                lemma_digits_push(s, c);
                let rest = b@.subrange((i + 1) as int, n as int);
                assert(spec_digits(s2) > limit);
                let full = b@.subrange(start as int, n as int);
                assert(full.subrange(0, (i + 1 - start) as int) =~= s2);
                assert(all_digits(s2));
                lemma_digits_grow(full, (i + 1 - start) as int);
                if signed {
                    assert(d =~= b@.drop_first());
                } else {
                    assert(d =~= b@);
                }
            }
            return None;
        }
        proof {
            let s = b@.subrange(start as int, i as int);
            assert(b@.subrange(start as int, (i + 1) as int) =~= s.push(c));
            lemma_digits_push(s, c);
            assert(acc * 10 + digit <= limit) by (nonlinear_arith)
                requires
                    acc <= (limit - digit) / 10,
                    digit < 10,
                    digit <= limit;
        }
        acc = acc * 10 + digit;
        i = i + 1;
    }
    proof {
        assert(b@.subrange(start as int, n as int) =~= d);
        if signed {
            assert(d =~= b@.drop_first());
        } else {
            assert(d =~= b@);
        }
    }
    if neg {
        if acc == 0x8000_0000_0000_0000u64 {
            Some(i64::MIN)
        } else {
            Some(-(acc as i64))
        }
    } else {
        Some(acc as i64)
    }
}

/// A digit run's value only grows as digits are added.
proof fn lemma_digits_grow(b: Seq<u8>, k: int)
    requires
        0 <= k <= b.len(),
        all_digits(b.subrange(0, k)),
    ensures
        all_digits(b) ==> spec_digits(b) >= spec_digits(b.subrange(0, k)),
    decreases b.len() - k,
{
    if k < b.len() && all_digits(b) {
        let s = b.subrange(0, k);
        let s2 = b.subrange(0, k + 1);
        assert(s2 =~= s.push(b[k]));
        lemma_digits_push(s, b[k]);
        lemma_digits_nonneg(s);
        assert(all_digits(s2));
        lemma_digits_grow(b, k + 1);
    } else if k == b.len() {
        assert(b.subrange(0, k) =~= b);
    }
}

/// Whether a refill of buffer `b` takes a byte: the buffer is streamed, the
/// base's file row heads a live descriptor, input is left, and a full buffer
/// has read bytes it can drop.
pub open spec fn refill_takes(o: &Objects, b: Obj) -> bool {
    let s = o.mem();
    let row = crate::base::spec_route(s, o.base, crate::base::FILEIN as nat);
    let fd = Obj(spec_data(s, row, 0));
    let w = spec_write(s, b);
    let c = spec_cursor(s, b);
    &&& !still(o, b)
    &&& o.base.0 != 0
    &&& row.0 != 0
    &&& fd.0 != 0
    &&& crate::obj::word_signed(spec_data(s, fd, 0)) >= 0
    &&& o.input_at < o.input@.len()
    &&& !(w >= o.input_cap && (c == 0 || c > w))
}

/// A refill that meets the end of the input: the buffer refills, the base's
/// file row heads a live descriptor, and no input byte is left.
pub open spec fn eof_latches(o: &Objects, b: Obj) -> bool {
    let s = o.mem();
    let row = crate::base::spec_route(s, o.base, crate::base::FILEIN as nat);
    let fd = Obj(spec_data(s, row, 0));
    &&& !still(o, b)
    &&& o.base.0 != 0
    &&& row.0 != 0
    &&& fd.0 != 0
    &&& crate::obj::word_signed(spec_data(s, fd, 0)) >= 0
    &&& o.input_at >= o.input@.len()
}

/// A buffer that never refills: it is read-only, or the engine reads no
/// stream.
pub open spec fn still(o: &Objects, b: Obj) -> bool {
    spec_data(o.mem(), b, 3) != 0 || !o.streaming
}

/// The byte address where a buffer's text begins.
pub open spec fn spec_text_base(s: Seq<u64>, b: Obj) -> u64 {
    spec_data(s, spec_buf_text(s, b), 0)
}

/// The byte `n` past a buffer's cursor, when it lies before the write mark.
pub open spec fn spec_ahead(s: Seq<u64>, b: Obj, n: u64) -> Option<u8> {
    let i = wrap_add(spec_cursor(s, b), n);
    if i < spec_write(s, b) {
        Some(spec_byte(s, wrap_add(spec_text_base(s, b), i)))
    } else {
        None
    }
}

/// The bytes from a buffer's cursor up to its write mark.
pub open spec fn spec_pending(s: Seq<u64>, b: Obj) -> Seq<u8> {
    let c = spec_cursor(s, b);
    let w = spec_write(s, b);
    if c <= w {
        Seq::new((w - c) as nat, |k: int| spec_byte(s, wrap_add(spec_text_base(s, b), (c + k) as u64)))
    } else {
        Seq::empty()
    }
}

/// The word a buffer's cursor is kept in.
pub open spec fn cursor_word(s: Seq<u64>, b: Obj) -> int {
    (spec_slot(spec_marks(s, b), 0) / 8) as int
}

/// Moving a buffer's cursor touches nothing else the buffer reads: the
/// cursor's word lies in the heap, apart from the buffer's fields, its write
/// mark, the text's address, and every pending byte.
pub open spec fn cursor_apart(s: Seq<u64>, b: Obj) -> bool {
    let m = cursor_word(s, b);
    let text = spec_buf_text(s, b);
    &&& b.0 != 0
    &&& spec_marks(s, b).0 != 0
    &&& m < s.len()
    &&& m != (spec_slot(b, 1) / 8) as int
    &&& m != (spec_slot(b, 2) / 8) as int
    &&& m != (spec_slot(b, 3) / 8) as int
    &&& m != (spec_slot(spec_marks(s, b), 1) / 8) as int
    &&& (text.0 != 0 ==> m != (spec_slot(text, 0) / 8) as int)
    &&& spec_cursor(s, b) <= spec_write(s, b)
    &&& spec_write(s, b) < 0xffff_ffff_ffff_ffff
    &&& forall|k: u64|
        spec_cursor(s, b) <= k < spec_write(s, b) ==> (#[trigger] wrap_add(spec_text_base(s, b), k) / 8) as int != m
}

/// Stepping the cursor of a buffer whose cursor lies apart: the pending
/// bytes lose their first, and nothing else moves.
pub proof fn lemma_step_cursor(s: Seq<u64>, b: Obj)
    requires
        cursor_apart(s, b),
        spec_cursor(s, b) < spec_write(s, b),
    ensures
        ({
            let s2 = with_data(s, spec_marks(s, b), 0, wrap_add(spec_cursor(s, b), 1));
            &&& spec_cursor(s2, b) == spec_cursor(s, b) + 1
            &&& spec_write(s2, b) == spec_write(s, b)
            &&& spec_marks(s2, b) == spec_marks(s, b)
            &&& spec_buf_text(s2, b) == spec_buf_text(s, b)
            &&& spec_text_base(s2, b) == spec_text_base(s, b)
            &&& spec_data(s2, b, 3) == spec_data(s, b, 3)
            &&& cursor_apart(s2, b)
            &&& spec_pending(s2, b) == spec_pending(s, b).drop_first()
            &&& s2.len() == s.len()
        }),
{
    let marks = spec_marks(s, b);
    let c = spec_cursor(s, b);
    let a = spec_slot(marks, 0);
    let v = wrap_add(c, 1);
    let s2 = with_data(s, marks, 0, v);
    assert(v == c + 1);
    crate::heap::lemma_set_word_read(s, a, spec_slot(b, 1), v);
    crate::heap::lemma_set_word_read(s, a, spec_slot(b, 2), v);
    crate::heap::lemma_set_word_read(s, a, spec_slot(b, 3), v);
    crate::heap::lemma_set_word_read(s, a, a, v);
    crate::heap::lemma_set_word_read(s, a, spec_slot(marks, 1), v);
    let text = spec_buf_text(s, b);
    if text.0 != 0 {
        crate::heap::lemma_set_word_read(s, a, spec_slot(text, 0), v);
    }
    let ta = spec_text_base(s, b);
    assert forall|k: u64| spec_cursor(s2, b) <= k < spec_write(s2, b) implies #[trigger] spec_byte(
        s2,
        wrap_add(ta, k),
    ) == spec_byte(s, wrap_add(ta, k)) by {
        crate::heap::lemma_set_word_read(s, a, wrap_add(ta, k), v);
    }
    assert forall|k: u64|
        spec_cursor(s2, b) <= k < spec_write(s2, b) implies (#[trigger] wrap_add(spec_text_base(s2, b), k) / 8) as int
        != cursor_word(s2, b) by {
        assert(wrap_add(ta, k) / 8 != cursor_word(s, b));
    }
    let p = spec_pending(s, b);
    let p2 = spec_pending(s2, b);
    assert forall|k: int| 0 <= k < p2.len() implies p2[k] == p.drop_first()[k] by {
        assert(spec_byte(s2, wrap_add(ta, (c + 1 + k) as u64)) == spec_byte(s, wrap_add(ta, (c + 1 + k) as u64)));
    }
    assert(p2 =~= p.drop_first());
}

/// Heaps that differ in one word read the same at any other.
pub proof fn lemma_same_but(s1: Seq<u64>, s2: Seq<u64>, m: int, a: u64)
    requires
        s1.len() == s2.len(),
        forall|i: int| 0 <= i < s1.len() && i != m ==> s2[i] == s1[i],
        (a / 8) as int != m,
    ensures
        crate::heap::spec_word(s2, a) == crate::heap::spec_word(s1, a),
        spec_byte(s2, a) == spec_byte(s1, a),
{
}

/// A word in the heap reads the same after the heap grows.
pub proof fn lemma_grew_word(s1: Seq<u64>, s2: Seq<u64>, a: u64)
    requires
        crate::objects::grew(s1, s2),
        ((a / 8) as int) < s1.len(),
    ensures
        crate::heap::spec_word(s2, a) == crate::heap::spec_word(s1, a),
{
    assert(s2.subrange(0, s1.len() as int)[(a / 8) as int] == s2[(a / 8) as int]);
}

/// The byte `n` ahead of the cursor is pending byte `n`.
pub proof fn lemma_ahead_is_pending(s: Seq<u64>, b: Obj, n: u64)
    requires
        cursor_apart(s, b),
        n <= 1,
    ensures
        spec_ahead(s, b, n) == if (n as int) < spec_pending(s, b).len() {
            Some(spec_pending(s, b)[n as int])
        } else {
            None::<u8>
        },
{
    assert(wrap_add(spec_cursor(s, b), n) == spec_cursor(s, b) + n);
}

/// An escape at the head of `p`, a backslash and at least one byte more:
/// the bytes it stands for and how many it takes. `\"`, `\\`, `\n`,
/// `\t`, `\r`, `\0` and `\x` with two hex digits decode; any other stands
/// as written.
pub open spec fn spec_escape(p: Seq<u8>) -> (Seq<u8>, nat) {
    let e = p[1];
    if e == 34 {
        (seq![34u8], 2)
    } else if e == 92 {
        (seq![92u8], 2)
    } else if e == 110 {
        (seq![10u8], 2)
    } else if e == 116 {
        (seq![9u8], 2)
    } else if e == 114 {
        (seq![13u8], 2)
    } else if e == 48 {
        (seq![0u8], 2)
    } else if e == 120 {
        if p.len() >= 4 && spec_hex_digit(p[2]) is Some && spec_hex_digit(p[3]) is Some {
            (seq![(spec_hex_digit(p[2])->0 * 16 + spec_hex_digit(p[3])->0) as u8], 4)
        } else {
            (seq![92u8, 120u8], 2)
        }
    } else {
        (seq![92u8, e], 2)
    }
}

/// A string literal's body after its open quote: the bytes it spells, and
/// how many it takes, the closing quote included. The input may end first.
pub open spec fn spec_string_body(p: Seq<u8>) -> (Seq<u8>, nat)
    decreases p.len(),
{
    if p.len() == 0 {
        (Seq::empty(), 0)
    } else if p[0] == 34 {
        (Seq::empty(), 1)
    } else if p[0] == 92 {
        if p.len() == 1 {
            (Seq::empty(), 1)
        } else {
            let used = spec_escape(p).1;
            let rest = spec_string_body(p.subrange(used as int, p.len() as int));
            (spec_escape(p).0 + rest.0, used + rest.1)
        }
    } else {
        let rest = spec_string_body(p.drop_first());
        (seq![p[0]] + rest.0, rest.1 + 1)
    }
}

/// A byte that ends an atom: a blank, a paren or a comment's `;`.
pub open spec fn spec_delim(c: u8) -> bool {
    spec_blank(c) || c == 40 || c == 41 || c == 59
}

/// How many bytes at the head of `p` an atom takes: up to the first
/// delimiter or the end.
pub open spec fn spec_atom_len(p: Seq<u8>) -> nat
    decreases p.len(),
{
    if p.len() == 0 || spec_delim(p[0]) {
        0
    } else {
        1 + spec_atom_len(p.drop_first())
    }
}

/// How many bytes a comment takes: through its newline, or to the end.
pub open spec fn spec_line_len(p: Seq<u8>) -> nat
    decreases p.len(),
{
    if p.len() == 0 {
        0
    } else if p[0] == 10 {
        1
    } else {
        1 + spec_line_len(p.drop_first())
    }
}

/// A comment takes at least its first byte and no more than there is.
pub proof fn lemma_line_len(p: Seq<u8>)
    ensures
        spec_line_len(p) <= p.len(),
        p.len() > 0 ==> spec_line_len(p) >= 1,
    decreases p.len(),
{
    if p.len() > 0 && p[0] != 10 {
        lemma_line_len(p.drop_first());
    }
}

/// How many bytes of blanks and `;` comments lie at the head of `p`.
pub open spec fn spec_skip(p: Seq<u8>) -> nat
    decreases p.len(),
{
    if p.len() == 0 {
        0
    } else if spec_blank(p[0]) {
        1 + spec_skip(p.drop_first())
    } else if p[0] == 59 {
        proof {
            lemma_line_len(p);
        }
        let n = spec_line_len(p);
        n + spec_skip(p.subrange(n as int, p.len() as int))
    } else {
        0
    }
}

/// Skipping stops at the end or at a byte that is neither blank nor `;`.
pub proof fn lemma_skip_stops(p: Seq<u8>)
    ensures
        spec_skip(p) <= p.len(),
        ({
            let q = p.subrange(spec_skip(p) as int, p.len() as int);
            q.len() == 0 || (!spec_blank(q[0]) && q[0] != 59)
        }),
    decreases p.len(),
{
    if p.len() > 0 {
        if spec_blank(p[0]) {
            lemma_skip_stops(p.drop_first());
            let n = spec_skip(p.drop_first());
            assert(p.drop_first().subrange(n as int, p.len() - 1) =~= p.subrange((n + 1) as int, p.len() as int));
        } else if p[0] == 59 {
            lemma_line_len(p);
            let k = spec_line_len(p);
            let t = p.subrange(k as int, p.len() as int);
            lemma_skip_stops(t);
            let n = spec_skip(t);
            assert(t.subrange(n as int, t.len() as int) =~= p.subrange((k + n) as int, p.len() as int));
        }
    }
}

/// What an atom spelled `run` reads as, answering `r`: an integer where it
/// spells one, else the symbol interned under it.
pub open spec fn atom_read_as(before: Objects, after: Objects, run: Seq<u8>, r: Obj) -> bool {
    &&& spec_parse_int(run) is Some && r.0 != 0 ==> spec_is(after.mem(), r, crate::objects::INT_BITS)
        && crate::obj::word_signed(spec_data(after.mem(), r, 0)) == spec_parse_int(run)->0
    &&& spec_parse_int(run) is None && r.0 != 0 ==> after.spec_interned(run) == Some(r)
    &&& spec_parse_int(run) is None && before.spec_interned(run) is Some ==> r == before.spec_interned(run)->0
    &&& spec_parse_int(run) is Some && r.0 == 0 ==> after.mem().len() + 5 > crate::heap::MAX_WORDS
        - crate::objects::META_MAX
}

/// What a character literal whose bytes after `#\\` are `lit` reads as,
/// answering `r`: nil where nothing follows, else the character
/// `spec_char_lit` names.
pub open spec fn char_read_as(s: Seq<u64>, lit: Seq<u8>, r: Obj) -> bool {
    &&& lit.len() == 0 ==> r.0 == 0
    &&& lit.len() > 0 && r.0 != 0 ==> spec_is(s, r, crate::objects::CHAR_BITS) && spec_data(s, r, 0)
        == spec_char_lit(lit).0 as u64
}

/// The bytes of text at byte address `base` from offset `start` up to `end`.
pub open spec fn spec_span(s: Seq<u64>, base: u64, start: u64, end: u64) -> Seq<u8> {
    if start <= end {
        Seq::new((end - start) as nat, |k: int| spec_byte(s, wrap_add(base, (start + k) as u64)))
    } else {
        Seq::empty()
    }
}

/// An ASCII letter.
pub open spec fn spec_alpha(c: u8) -> bool {
    (65 <= c <= 90) || (97 <= c <= 122)
}

/// How many letters lead `p`.
pub open spec fn spec_alpha_len(p: Seq<u8>) -> nat
    decreases p.len(),
{
    if p.len() == 0 || !spec_alpha(p[0]) {
        0
    } else {
        1 + spec_alpha_len(p.drop_first())
    }
}

/// How many UTF-8 continuation bytes lead `p`.
pub open spec fn spec_cont_len(p: Seq<u8>) -> nat
    decreases p.len(),
{
    if p.len() == 0 || p[0] & 0xc0u8 != 0x80u8 {
        0
    } else {
        1 + spec_cont_len(p.drop_first())
    }
}

/// The code of the first of the named characters from `i` on spelled
/// `name`.
pub open spec fn spec_named_from(name: Seq<u8>, i: nat) -> Option<u32>
    decreases 9 - i,
{
    if i >= 9 {
        None
    } else if crate::vocabulary::spec_char_name(i as usize).0.spec_bytes() == name {
        Some(crate::vocabulary::spec_char_name(i as usize).1)
    } else {
        spec_named_from(name, i + 1)
    }
}

/// What a character literal after its `#\` reads as, and how many bytes it
/// takes: a multibyte character whole, a non-letter at once, a lone letter
/// as itself, a run of letters naming one of the nine as that character,
/// and any other run of letters as its first letter alone.
pub open spec fn spec_char_lit(p: Seq<u8>) -> (u32, nat)
    recommends
        p.len() > 0,
{
    let first = p[0];
    if first >= 0x80 {
        let k = 1 + spec_cont_len(p.drop_first());
        (spec_utf8(p.subrange(0, k as int)) as u32, k)
    } else if !spec_alpha(first) {
        (first as u32, 1)
    } else {
        let n = 1 + spec_alpha_len(p.drop_first());
        if n == 1 {
            (first as u32, 1)
        } else {
            match spec_named_from(p.subrange(0, n as int), 0) {
                Some(cp) => (cp, n),
                None => (first as u32, 1),
            }
        }
    }
}

/// After the cursor moved within a buffer whose cursor lies apart, the text
/// between two marks at or past where it stood is still the pending bytes
/// there were.
pub proof fn lemma_span_is_pending(s0: Seq<u64>, s2: Seq<u64>, b: Obj, start: u64, end: u64)
    requires
        cursor_apart(s0, b),
        s2.len() == s0.len(),
        forall|i: int| 0 <= i < s0.len() && i != cursor_word(s0, b) ==> s2[i] == s0[i],
        spec_cursor(s0, b) <= start <= end <= spec_write(s0, b),
    ensures
        spec_text_base(s2, b) == spec_text_base(s0, b),
        spec_span(s2, spec_text_base(s2, b), start, end) == spec_pending(s0, b).subrange(
            start - spec_cursor(s0, b),
            end - spec_cursor(s0, b),
        ),
{
    let m = cursor_word(s0, b);
    let text = spec_buf_text(s0, b);
    lemma_same_but(s0, s2, m, spec_slot(b, 2));
    if text.0 != 0 {
        lemma_same_but(s0, s2, m, spec_slot(text, 0));
    }
    let ta = spec_text_base(s0, b);
    let c = spec_cursor(s0, b);
    let run = spec_pending(s0, b).subrange(start - c, end - c);
    assert forall|j: int| 0 <= j < run.len() implies #[trigger] spec_span(s2, ta, start, end)[j] == run[j] by {
        let a = wrap_add(ta, (start + j) as u64);
        assert(((a / 8) as int) != m);
        lemma_same_but(s0, s2, m, a);
    }
    assert(spec_span(s2, ta, start, end) =~= run);
}

/// The code of the named character spelled `name`, the first of the nine
/// that matches.
pub fn named_char(name: &[u8]) -> (r: Option<u32>)
    ensures
        r == spec_named_from(name@, 0),
{
    let mut i: usize = 0;
    while i < 9
        invariant
            i <= 9,
            spec_named_from(name@, 0) == spec_named_from(name@, i as nat),
        decreases 9 - i,
    {
        let (n, cp) = crate::vocabulary::char_name(i);
        if crate::symbols::bytes_eq(n.as_bytes(), name) {
            return Some(cp);
        }
        i = i + 1;
    }
    None
}

/// A string literal keeps every byte that is neither a quote nor a
/// backslash as it stands, multibyte characters' bytes included: the body of
/// such bytes followed by a closing quote reads as exactly those bytes, and
/// takes them and the quote.
pub proof fn law_a_literal_keeps_its_plain_bytes(t: Seq<u8>, rest: Seq<u8>)
    requires
        forall|k: int| 0 <= k < t.len() ==> #[trigger] t[k] != 34 && t[k] != 92,
    ensures
        spec_string_body(t + seq![34u8] + rest) == (t, t.len() + 1),
    decreases t.len(),
{
    let p = t + seq![34u8] + rest;
    if t.len() == 0 {
        assert(p[0] == 34);
    } else {
        let t2 = t.drop_first();
        assert forall|k: int| 0 <= k < t2.len() implies #[trigger] t2[k] != 34 && t2[k] != 92 by {
            assert(t2[k] == t[k + 1]);
        }
        law_a_literal_keeps_its_plain_bytes(t2, rest);
        assert(p.drop_first() =~= t2 + seq![34u8] + rest);
        assert(p[0] == t[0]);
        assert(seq![t[0]] + t2 =~= t);
    }
}

impl Objects {
    /// Take one byte of a streamed input into the buffer; false when there is
    /// none, latching end of input on the file row.
    fn buf_refill(&mut self, b: Obj) -> (r: bool)
        requires
            old(self).wf(),
        ensures
            final(self).wf(),
            final(self).same_rest(old(self)),
            final(self).mem().len() == old(self).mem().len(),
            crate::objects::spec_data(old(self).mem(), b, 3) != 0 || !old(self).streaming
                ==> !r && *final(self) == *old(self),
            r == refill_takes(old(self), b),
            r ==> final(self).input_at == old(self).input_at + 1,
            final(self).input_at == old(self).input_at || final(self).input_at == old(self).input_at + 1,
            // with room left, the next input byte lands at the write mark,
            // which then moves past it
            r && spec_write(old(self).mem(), b) < old(self).input_cap ==> {
                let s = old(self).mem();
                let s1 = crate::heap::spec_set_byte(
                    s,
                    wrap_add(spec_text_base(s, b), spec_write(s, b)),
                    old(self).input@[old(self).input_at as int],
                );
                final(self).mem() == with_data(s1, spec_marks(s1, b), 1, wrap_add(spec_write(s, b), 1))
            },
            // at the end of the input the descriptor word is complemented,
            // so no later refill reads again
            eof_latches(old(self), b) ==> {
                let s = old(self).mem();
                let fd = Obj(spec_data(s, crate::base::spec_route(s, old(self).base, crate::base::FILEIN as nat), 0));
                &&& !r
                &&& final(self).mem() == with_data(s, fd, 0, crate::obj::signed_word(!crate::obj::word_signed(spec_data(s, fd, 0))))
                &&& final(self).input_at == old(self).input_at
                &&& ((spec_slot(fd, 0) / 8) as int) < s.len()
                    ==> crate::obj::word_signed(spec_data(final(self).mem(), fd, 0)) < 0
            },
    {
        if self.buf_ro(b) || !self.streaming {
            return false;
        }
        let base = self.base;
        if base.0 == 0 {
            return false;
        }
        let row = crate::base::get(self, base, crate::base::FILEIN);
        if row.0 == 0 {
            return false;
        }
        let fd_obj = self.first(row);
        if fd_obj.0 == 0 || self.as_int(fd_obj) < 0 {
            return false;
        }
        if self.input_at >= self.input.len() {
            let fd = self.as_int(fd_obj);
            let nfd: i64 = !fd;
            assert(fd >= 0 ==> nfd < 0) by (bit_vector)
                requires
                    nfd == !fd,
            ;
            self.set_data(fd_obj, 0, Word(crate::obj::i64_to_word(nfd)));
            proof {
                crate::heap::lemma_set_word_read(
                    old(self).mem(),
                    spec_slot(fd_obj, 0),
                    spec_slot(fd_obj, 0),
                    crate::obj::signed_word(nfd),
                );
                crate::obj::lemma_signed_word_round_trip(nfd);
            }
            return false;
        }
        let byte = self.input[self.input_at];
        self.input_at = self.input_at + 1;
        let mut w = self.buf_write(b);
        if w >= self.input_cap {
            let c = self.buf_cursor(b);
            if c == 0 || c > w {
                return false;
            }
            let text = self.buf_text(b);
            let at = self.str_bytes(text);
            let mut i: u64 = c;
            while i < w
                invariant
                    self.wf(),
                    self.same_rest(old(self)),
                    self.mem().len() == old(self).mem().len(),
                    c <= i <= w,
                    self.input_at == old(self).input_at + 1,
                decreases w - i,
            {
                let v = self.heap.byte(at.plus(i));
                self.heap.set_byte(at.plus(i - c), v);
                proof {
                    crate::heap::lemma_set_byte_len(old(self).mem(), 0, 0);
                }
                i = i + 1;
            }
            self.set_buf_retain(b, 0);
            self.set_buf_cursor(b, 0);
            w = w - c;
            self.set_buf_write(b, w);
        }
        let text = self.buf_text(b);
        let at = self.str_bytes(text);
        self.heap.set_byte(at.plus(w), byte);
        self.set_buf_write(b, crate::obj::add_wrapping(w, 1));
        true
    }

    /// The byte `n` past the cursor, refilling as needed; None at the end.
    pub fn buf_byte_ahead(&mut self, b: Obj, n: u64) -> (r: Option<u8>)
        requires
            old(self).wf(),
        ensures
            final(self).wf(),
            final(self).same_rest(old(self)),
            final(self).mem().len() == old(self).mem().len(),
            still(old(self), b) ==> *final(self) == *old(self) && r == spec_ahead(old(self).mem(), b, n),
    {
        let rem: usize = if self.input_at <= self.input.len() {
            self.input.len() - self.input_at
        } else {
            0
        };
        let mut budget: usize = if rem < usize::MAX {
            rem + 1
        } else {
            rem
        };
        while budget > 0
            invariant
                self.wf(),
                self.same_rest(old(self)),
                self.mem().len() == old(self).mem().len(),
                still(old(self), b) ==> *self == *old(self) && budget > 0,
            decreases budget,
        {
            budget = budget - 1;
            let i = crate::obj::add_wrapping(self.buf_cursor(b), n);
            if i < self.buf_write(b) {
                let text = self.buf_text(b);
                return Some(self.heap.byte(self.str_bytes(text).plus(i)));
            }
            if !self.buf_refill(b) {
                return None;
            }
        }
        None
    }

    pub fn buf_peek(&mut self, b: Obj) -> (r: Option<u8>)
        requires
            old(self).wf(),
        ensures
            final(self).wf(),
            final(self).same_rest(old(self)),
            final(self).mem().len() == old(self).mem().len(),
            still(old(self), b) ==> *final(self) == *old(self) && r == spec_ahead(old(self).mem(), b, 0),
    {
        self.buf_byte_ahead(b, 0)
    }

    /// Refill a streamed buffer until a newline lies at or past the cursor,
    /// or its input ends; nothing for a read-only buffer.
    pub fn buf_prefetch_line(&mut self, b: Obj)
        requires
            old(self).wf(),
        ensures
            final(self).wf(),
            final(self).same_rest(old(self)),
            final(self).mem().len() == old(self).mem().len(),
            still(old(self), b) ==> *final(self) == *old(self),
            final(self).input_at >= old(self).input_at,
    {
        if self.buf_ro(b) {
            return;
        }
        let mut budget: u64 = u64::MAX;
        while budget > 0
            invariant
                self.wf(),
                self.same_rest(old(self)),
                self.mem().len() == old(self).mem().len(),
                still(old(self), b) ==> *self == *old(self),
                self.input_at >= old(self).input_at,
            decreases budget,
        {
            budget = budget - 1;
            let c = self.buf_cursor(b);
            let w = self.buf_write(b);
            let text = self.buf_text(b);
            let at = self.str_bytes(text);
            let mut seen = false;
            let mut i: u64 = c;
            while i < w
                invariant
                    c <= i,
                decreases w - i,
            {
                if self.heap.byte(at.plus(i)) == 10 {
                    seen = true;
                    break;
                }
                i = i + 1;
            }
            if seen || !self.buf_refill(b) {
                return;
            }
        }
    }

    /// Step the cursor over one byte.
    pub fn buf_bump(&mut self, b: Obj)
        requires
            old(self).wf(),
        ensures
            final(self).wf(),
            final(self).same_rest(old(self)),
            final(self).mem().len() == old(self).mem().len(),
            final(self).mem() == with_data(
                old(self).mem(),
                spec_marks(old(self).mem(), b),
                0,
                wrap_add(spec_cursor(old(self).mem(), b), 1),
            ),
    {
        let i = self.buf_cursor(b);
        self.set_buf_cursor(b, crate::obj::add_wrapping(i, 1));
    }

    /// The next byte, consumed; None at the end of input.
    pub fn buf_next_byte(&mut self, b: Obj) -> (r: Option<u8>)
        requires
            old(self).wf(),
        ensures
            final(self).wf(),
            final(self).same_rest(old(self)),
            final(self).mem().len() == old(self).mem().len(),
            still(old(self), b) ==> r == spec_ahead(old(self).mem(), b, 0),
            still(old(self), b) && r is None ==> *final(self) == *old(self),
            still(old(self), b) && r is Some ==> final(self).mem() == with_data(
                old(self).mem(),
                spec_marks(old(self).mem(), b),
                0,
                wrap_add(spec_cursor(old(self).mem(), b), 1),
            ),
    {
        match self.buf_peek(b) {
            Some(c) => {
                self.buf_bump(b);
                Some(c)
            },
            None => None,
        }
    }

    /// The bytes of the buffer's text from `start` up to `end`.
    fn buf_slice(&self, b: Obj, start: u64, end: u64) -> (r: Vec<u8>)
        ensures
            r@ == spec_span(self.mem(), spec_text_base(self.mem(), b), start, end),
    {
        let text = self.buf_text(b);
        let at = self.str_bytes(text);
        let mut out: Vec<u8> = Vec::new();
        let mut i: u64 = start;
        while i < end
            invariant
                start <= i,
                i <= end || start > end,
                at.0 == spec_text_base(self.mem(), b),
                start <= end ==> out@ == spec_span(self.mem(), at.0, start, i),
                start > end ==> out@.len() == 0,
            decreases end - i,
        {
            out.push(self.heap.byte(at.plus(i)));
            i = i + 1;
            proof {
                assert(out@ =~= spec_span(self.mem(), at.0, start, i));
            }
        }
        proof {
            if start > end {
                assert(out@ =~= spec_span(self.mem(), at.0, start, end));
            }
        }
        out
    }

    /// Skip blanks and `;` comments.
    pub fn buf_skip_blanks(&mut self, b: Obj)
        requires
            old(self).wf(),
        ensures
            final(self).wf(),
            final(self).same_rest(old(self)),
            final(self).mem().len() == old(self).mem().len(),
            still(old(self), b) && cursor_apart(old(self).mem(), b) ==> {
                let p = spec_pending(old(self).mem(), b);
                let n = spec_skip(p);
                &&& still(final(self), b)
                &&& cursor_apart(final(self).mem(), b)
                &&& spec_cursor(final(self).mem(), b) == spec_cursor(old(self).mem(), b) + n
                &&& spec_pending(final(self).mem(), b) == p.subrange(n as int, p.len() as int)
                &&& cursor_word(final(self).mem(), b) == cursor_word(old(self).mem(), b)
                &&& forall|i: int|
                    0 <= i < old(self).mem().len() && i != cursor_word(old(self).mem(), b) ==> final(self).mem()[i]
                        == old(self).mem()[i]
            },
    {
        let ghost sl = still(old(self), b) && cursor_apart(old(self).mem(), b);
        let ghost s0 = self.mem();
        let ghost p0 = spec_pending(s0, b);
        let ghost m = cursor_word(s0, b);
        let ghost c0 = spec_cursor(s0, b);
        let mut budget: u64 = u64::MAX;
        while budget > 0
            invariant
                self.wf(),
                self.same_rest(old(self)),
                self.mem().len() == old(self).mem().len(),
                s0 == old(self).mem(),
                sl == (still(old(self), b) && cursor_apart(s0, b)),
                p0 == spec_pending(s0, b),
                m == cursor_word(s0, b),
                c0 == spec_cursor(s0, b),
                sl ==> still(self, b) && cursor_apart(self.mem(), b),
                sl ==> spec_cursor(self.mem(), b) >= c0,
                sl ==> spec_pending(self.mem(), b) == p0.subrange(spec_cursor(self.mem(), b) - c0, p0.len() as int),
                sl ==> spec_skip(p0) == spec_cursor(self.mem(), b) - c0 + spec_skip(spec_pending(self.mem(), b)),
                sl ==> forall|i: int| 0 <= i < s0.len() && i != m ==> self.mem()[i] == s0[i],
                sl ==> cursor_word(self.mem(), b) == m,
                sl ==> spec_pending(self.mem(), b).len() <= budget,
            decreases budget,
        {
            budget = budget - 1;
            let ghost s1 = self.mem();
            proof {
                if sl {
                    lemma_ahead_is_pending(s1, b, 0);
                }
            }
            match self.buf_peek(b) {
                Some(c) => {
                    if is_blank(c) {
                        proof {
                            if sl {
                                lemma_step_cursor(s1, b);
                            }
                        }
                        self.buf_bump(b);
                        proof {
                            if sl {
                                let k = spec_cursor(s1, b) - c0;
                                assert(p0.subrange(k, p0.len() as int).drop_first() =~= p0.subrange(
                                    k + 1,
                                    p0.len() as int,
                                ));
                            }
                        }
                    } else if c == 59 {
                        let ghost q = spec_pending(s1, b);
                        proof {
                            if sl {
                                lemma_line_len(q);
                            }
                        }
                        let mut inner: u64 = u64::MAX;
                        while inner > 0
                            invariant_except_break
                                sl ==> spec_pending(self.mem(), b).len() <= inner,
                                sl ==> spec_line_len(q) == spec_cursor(self.mem(), b) - spec_cursor(s1, b)
                                    + spec_line_len(spec_pending(self.mem(), b)),
                            invariant
                                self.wf(),
                                self.same_rest(old(self)),
                                self.mem().len() == old(self).mem().len(),
                                s0 == old(self).mem(),
                                sl == (still(old(self), b) && cursor_apart(s0, b)),
                                p0 == spec_pending(s0, b),
                                m == cursor_word(s0, b),
                                c0 == spec_cursor(s0, b),
                                sl ==> q == spec_pending(s1, b) && spec_cursor(s1, b) >= c0,
                                sl ==> q == p0.subrange(spec_cursor(s1, b) - c0, p0.len() as int),
                                sl ==> still(self, b) && cursor_apart(self.mem(), b),
                                sl ==> spec_cursor(self.mem(), b) >= spec_cursor(s1, b),
                                sl ==> spec_pending(self.mem(), b) == q.subrange(
                                    spec_cursor(self.mem(), b) - spec_cursor(s1, b),
                                    q.len() as int,
                                ),
                                sl ==> forall|i: int| 0 <= i < s0.len() && i != m ==> self.mem()[i] == s0[i],
                                sl ==> cursor_word(self.mem(), b) == m,
                            ensures
                                sl ==> spec_cursor(self.mem(), b) - spec_cursor(s1, b) == spec_line_len(q),
                            decreases inner,
                        {
                            inner = inner - 1;
                            let ghost s2 = self.mem();
                            proof {
                                if sl {
                                    lemma_ahead_is_pending(s2, b, 0);
                                }
                            }
                            match self.buf_next_byte(b) {
                                Some(x) => {
                                    proof {
                                        if sl {
                                            lemma_step_cursor(s2, b);
                                            let k = spec_cursor(s2, b) - spec_cursor(s1, b);
                                            assert(q.subrange(k, q.len() as int).drop_first() =~= q.subrange(
                                                k + 1,
                                                q.len() as int,
                                            ));
                                        }
                                    }
                                    if x == 10 {
                                        break;
                                    }
                                },
                                None => {
                                    break;
                                },
                            }
                        }
                        proof {
                            if sl {
                                let n = spec_line_len(q);
                                let k = spec_cursor(s1, b) - c0;
                                assert(q.subrange(n as int, q.len() as int) =~= p0.subrange(k + n, p0.len() as int));
                            }
                        }
                    } else {
                        return;
                    }
                },
                None => {
                    return;
                },
            }
        }
    }

    /// Is the byte at the cursor a lone `.` acting as a tail separator: a dot
    /// followed by a blank, a paren, or the end of input?
    pub fn buf_at_dot_separator(&mut self, b: Obj) -> (r: bool)
        requires
            old(self).wf(),
        ensures
            final(self).wf(),
            final(self).same_rest(old(self)),
            final(self).mem().len() == old(self).mem().len(),
            still(old(self), b) ==> *final(self) == *old(self) && r == (spec_ahead(old(self).mem(), b, 0) == Some(46u8)
                && match spec_ahead(old(self).mem(), b, 1) {
                None => true,
                Some(c) => spec_blank(c) || c == 40 || c == 41,
            }),
    {
        match self.buf_peek(b) {
            Some(c) => {
                if c != 46 {
                    return false;
                }
                match self.buf_byte_ahead(b, 1) {
                    None => true,
                    Some(n) => is_blank(n) || n == 40 || n == 41,
                }
            },
            None => false,
        }
    }

    /// Read one form; None at the end of input. An unterminated list reads as
    /// what it holds so far.
    pub fn buf_read_form(&mut self, b: Obj) -> (r: Option<Obj>)
        requires
            old(self).wf(),
        ensures
            final(self).wf(),
            final(self).same_frame(old(self)),
            still(old(self), b) && cursor_apart(old(self).mem(), b) ==> {
                let p = spec_pending(old(self).mem(), b);
                let q = p.subrange(spec_skip(p) as int, p.len() as int);
                &&& q.len() == 0 ==> r is None
                &&& q.len() > 0 && q[0] == 41 ==> r == Some(Obj(0))
                &&& q.len() > 0 && q[0] == 34 ==> (r matches Some(v) && (v.0 != 0 ==> spec_is(
                    final(self).mem(),
                    v,
                    crate::objects::STR_BITS,
                ) && crate::value::text::stored_at(
                    final(self).mem(),
                    spec_data(final(self).mem(), v, 0),
                    spec_string_body(q.drop_first()).0,
                )))
                &&& q.len() >= 2 && q[0] == 35 && q[1] == 92 ==> (r matches Some(v) && char_read_as(
                    final(self).mem(),
                    q.subrange(2, q.len() as int),
                    v,
                ))
                &&& q.len() > 0 && q[0] != 40 && q[0] != 41 && q[0] != 34 && !(q.len() >= 2 && q[0] == 35 && q[1]
                    == 92) ==> (r matches Some(v) && atom_read_as(
                    *old(self),
                    *final(self),
                    q.subrange(0, spec_atom_len(q) as int),
                    v,
                ))
                &&& q.len() > 0 && q[0] == 40 ==> r is Some && ({
                    let q2 = q.drop_first();
                    let q3 = q2.subrange(spec_skip(q2) as int, q2.len() as int);
                    q3.len() > 0 && q3[0] == 41 ==> r == Some(Obj(0))
                })
            },
    {
        let (r, _) = self.buf_read_form_d(b, READ_DEPTH);
        r
    }

    /// Read one form at most `depth` lists deep; the flag is false when a
    /// list ran off the end of input.
    pub fn buf_read_form_d(&mut self, b: Obj, depth: u64) -> (r: (Option<Obj>, bool))
        requires
            old(self).wf(),
        ensures
            final(self).wf(),
            final(self).same_frame(old(self)),
            still(old(self), b) && cursor_apart(old(self).mem(), b) ==> {
                let p = spec_pending(old(self).mem(), b);
                let q = p.subrange(spec_skip(p) as int, p.len() as int);
                &&& q.len() == 0 ==> r == (None::<Obj>, true)
                &&& q.len() > 0 && q[0] == 41 ==> r == (Some(Obj(0)), true)
                &&& q.len() > 0 && q[0] == 34 ==> (r.0 matches Some(v) && r.1 && (v.0 != 0 ==> spec_is(
                    final(self).mem(),
                    v,
                    crate::objects::STR_BITS,
                ) && crate::value::text::stored_at(
                    final(self).mem(),
                    spec_data(final(self).mem(), v, 0),
                    spec_string_body(q.drop_first()).0,
                )))
                &&& q.len() >= 2 && q[0] == 35 && q[1] == 92 ==> (r.0 matches Some(v) && r.1 && char_read_as(
                    final(self).mem(),
                    q.subrange(2, q.len() as int),
                    v,
                ))
                &&& q.len() > 0 && q[0] != 40 && q[0] != 41 && q[0] != 34 && !(q.len() >= 2 && q[0] == 35 && q[1]
                    == 92) ==> (r.0 matches Some(v) && r.1 && atom_read_as(
                    *old(self),
                    *final(self),
                    q.subrange(0, spec_atom_len(q) as int),
                    v,
                ))
                &&& q.len() > 0 && q[0] == 40 ==> r.0 is Some && ({
                    let q2 = q.drop_first();
                    let q3 = q2.subrange(spec_skip(q2) as int, q2.len() as int);
                    &&& depth > 0 && q3.len() == 0 ==> r == (Some(Obj(0)), false)
                    &&& depth > 0 && q3.len() > 0 && q3[0] == 41 ==> r == (Some(Obj(0)), true)
                })
            },
        decreases depth, 1u64,
    {
        proof {
            lemma_skip_stops(spec_pending(self.mem(), b));
        }
        self.buf_skip_blanks(b);
        let ghost s1 = self.mem();
        proof {
            if still(old(self), b) && cursor_apart(old(self).mem(), b) {
                lemma_ahead_is_pending(s1, b, 0);
            }
        }
        let c = match self.buf_peek(b) {
            Some(c) => c,
            None => {
                return (None, true);
            },
        };
        if c == 40 {
            self.buf_bump(b);
            proof {
                if still(old(self), b) && cursor_apart(old(self).mem(), b) {
                    lemma_step_cursor(s1, b);
                }
            }
            if depth == 0 {
                return (Some(nil()), true);
            }
            let (l, done) = self.buf_read_list(b, depth - 1);
            return (Some(l), done);
        }
        match self.buf_read_one_builtin_except_atom(b) {
            Some(v) => (Some(v), true),
            None => (Some(self.buf_read_atom(b)), true),
        }
    }

    /// A close paren (read as nil), a string, or a character literal; None
    /// for anything else, consuming nothing.
    pub fn buf_read_one_builtin_except_atom(&mut self, b: Obj) -> (r: Option<Obj>)
        requires
            old(self).wf(),
        ensures
            final(self).wf(),
            final(self).same_frame(old(self)),
            still(old(self), b) && cursor_apart(old(self).mem(), b) ==> {
                let p = spec_pending(old(self).mem(), b);
                let c = spec_cursor(old(self).mem(), b);
                &&& (p.len() == 0 || p[0] == 40 || (p[0] != 41 && p[0] != 34 && !(p.len() >= 2 && p[0] == 35 && p[1]
                    == 92))) ==> r is None && *final(self) == *old(self)
                &&& p.len() > 0 && p[0] == 41 ==> r == Some(Obj(0)) && spec_cursor(final(self).mem(), b) == c + 1
                &&& p.len() > 0 && p[0] == 34 ==> {
                    let body = spec_string_body(p.drop_first());
                    &&& r matches Some(v) && (v.0 != 0 ==> spec_is(final(self).mem(), v, crate::objects::STR_BITS)
                        && crate::value::text::stored_at(final(self).mem(), spec_data(final(self).mem(), v, 0), body.0))
                    &&& spec_cursor(final(self).mem(), b) == c + 1 + body.1
                }
                &&& p.len() >= 2 && p[0] == 35 && p[1] == 92 ==> {
                    let lit = p.subrange(2, p.len() as int);
                    &&& r matches Some(v) && (lit.len() == 0 ==> v.0 == 0) && (lit.len() > 0 && v.0 != 0 ==> spec_is(
                        final(self).mem(),
                        v,
                        crate::objects::CHAR_BITS,
                    ) && spec_data(final(self).mem(), v, 0) == spec_char_lit(lit).0 as u64)
                    &&& lit.len() > 0 ==> spec_cursor(final(self).mem(), b) == c + 2 + spec_char_lit(lit).1
                }
            },
    {
        let ghost s0 = self.mem();
        proof {
            if still(old(self), b) && cursor_apart(s0, b) {
                lemma_ahead_is_pending(s0, b, 0);
                lemma_ahead_is_pending(s0, b, 1);
            }
        }
        let c = match self.buf_peek(b) {
            Some(c) => c,
            None => {
                return None;
            },
        };
        if c == 40 {
            return None;
        }
        if c == 41 {
            self.buf_bump(b);
            proof {
                if still(old(self), b) && cursor_apart(s0, b) {
                    lemma_step_cursor(s0, b);
                }
            }
            return Some(nil());
        }
        if c == 34 {
            self.buf_bump(b);
            proof {
                if still(old(self), b) && cursor_apart(s0, b) {
                    lemma_step_cursor(s0, b);
                }
            }
            return Some(self.buf_read_string(b));
        }
        if c == 35 && self.buf_byte_ahead(b, 1) == Some(92u8) {
            self.buf_bump(b);
            proof {
                if still(old(self), b) && cursor_apart(s0, b) {
                    lemma_step_cursor(s0, b);
                }
            }
            let ghost s1 = self.mem();
            self.buf_bump(b);
            proof {
                if still(old(self), b) && cursor_apart(s0, b) {
                    lemma_step_cursor(s1, b);
                    let p = spec_pending(s0, b);
                    assert(p.drop_first().drop_first() =~= p.subrange(2, p.len() as int));
                }
            }
            return Some(self.buf_read_char(b));
        }
        None
    }

    /// The elements up to the close paren, with a dotted tail as the rest;
    /// the flag is false when the input ended first.
    fn buf_read_list(&mut self, b: Obj, depth: u64) -> (r: (Obj, bool))
        requires
            old(self).wf(),
        ensures
            final(self).wf(),
            final(self).same_frame(old(self)),
            still(old(self), b) && cursor_apart(old(self).mem(), b) ==> {
                let p = spec_pending(old(self).mem(), b);
                let q = p.subrange(spec_skip(p) as int, p.len() as int);
                &&& q.len() == 0 ==> r == (Obj(0), false)
                &&& q.len() > 0 && q[0] == 41 ==> r == (Obj(0), true)
            },
        decreases depth, 2u64,
    {
        let mut items: Vec<Obj> = Vec::new();
        let mut tail = nil();
        let mut done = false;
        let mut budget: u64 = u64::MAX;
        let ghost sl = still(old(self), b) && cursor_apart(old(self).mem(), b);
        let ghost p0 = spec_pending(old(self).mem(), b);
        let ghost q0 = p0.subrange(spec_skip(p0) as int, p0.len() as int);
        let ghost quiet = sl && (q0.len() == 0 || q0[0] == 41);
        proof {
            lemma_skip_stops(p0);
        }
        while budget > 0
            invariant_except_break
                quiet ==> budget == u64::MAX && *self == *old(self) && !done,
            invariant
                self.wf(),
                self.same_frame(old(self)),
                quiet ==> items@.len() == 0 && tail.0 == 0,
                quiet == (sl && (q0.len() == 0 || q0[0] == 41)),
                sl == (still(old(self), b) && cursor_apart(old(self).mem(), b)),
                p0 == spec_pending(old(self).mem(), b),
                q0 == p0.subrange(spec_skip(p0) as int, p0.len() as int),
            ensures
                quiet ==> items@.len() == 0 && tail.0 == 0 && done == (q0.len() > 0),
            decreases budget,
        {
            budget = budget - 1;
            self.buf_skip_blanks(b);
            let ghost s1 = self.mem();
            proof {
                if quiet {
                    lemma_ahead_is_pending(s1, b, 0);
                    assert(spec_pending(s1, b) == q0);
                }
            }
            match self.buf_peek(b) {
                None => {
                    break;
                },
                Some(c) => {
                    if c == 41 {
                        self.buf_bump(b);
                        done = true;
                        break;
                    }
                    if c == 46 && self.buf_at_dot_separator(b) {
                        self.buf_bump(b);
                        self.buf_skip_blanks(b);
                        let (t, ok) = self.buf_read_form_d(b, depth);
                        match t {
                            Some(t) => {
                                tail = t;
                            },
                            None => {},
                        }
                        self.buf_skip_blanks(b);
                        if self.buf_peek(b) == Some(41u8) {
                            self.buf_bump(b);
                            done = ok;
                        }
                        break;
                    }
                    let (o, ok) = self.buf_read_form_d(b, depth);
                    match o {
                        Some(o) => {
                            items.push(o);
                        },
                        None => {
                            break;
                        },
                    }
                    if !ok {
                        break;
                    }
                },
            }
        }
        let mut out = tail;
        let mut k: usize = items.len();
        while k > 0
            invariant
                self.wf(),
                self.same_frame(old(self)),
                k <= items@.len(),
                k == items@.len() ==> out == tail,
            decreases k,
        {
            k = k - 1;
            out = self.pair(items[k], out);
        }
        (out, done)
    }

    /// One step of a string literal's body: a plain byte, an escape, the
    /// closing quote, or the end of input. Answers whether the body goes on.
    /// On a buffer that never refills and whose cursor lies apart, what it
    /// adds to `bytes` and the bytes it steps over are those
    /// `spec_string_body` takes for its first step.
    fn string_step(&mut self, b: Obj, bytes: &mut Vec<u8>) -> (more: bool)
        requires
            old(self).wf(),
        ensures
            final(self).wf(),
            final(self).same_rest(old(self)),
            final(self).mem().len() == old(self).mem().len(),
            still(old(self), b) && cursor_apart(old(self).mem(), b) ==> {
                let pp = spec_pending(old(self).mem(), b);
                let body = spec_string_body(pp);
                let after = spec_string_body(spec_pending(final(self).mem(), b));
                &&& still(final(self), b)
                &&& cursor_apart(final(self).mem(), b)
                &&& spec_cursor(final(self).mem(), b) >= spec_cursor(old(self).mem(), b)
                &&& !more ==> final(bytes)@ == old(bytes)@ + body.0 && spec_cursor(final(self).mem(), b)
                    == spec_cursor(old(self).mem(), b) + body.1
                &&& more ==> final(bytes)@ + after.0 == old(bytes)@ + body.0 && spec_cursor(final(self).mem(), b)
                    - spec_cursor(old(self).mem(), b) + after.1 == body.1 && spec_pending(final(self).mem(), b).len()
                    < pp.len()
            },
    {
        let ghost sl = still(old(self), b) && cursor_apart(old(self).mem(), b);
        let ghost s1 = self.mem();
        let ghost pp = spec_pending(s1, b);
        let ghost bytes0 = bytes@;
        proof {
            if sl {
                lemma_ahead_is_pending(s1, b, 0);
            }
        }
        let c = match self.buf_next_byte(b) {
            Some(c) => c,
            None => {
                proof {
                    if sl {
                        assert(bytes@ + Seq::<u8>::empty() =~= bytes@);
                    }
                }
                return false;
            },
        };
        proof {
            if sl {
                lemma_step_cursor(s1, b);
            }
        }
        if c == 34 {
            proof {
                if sl {
                    assert(bytes@ + Seq::<u8>::empty() =~= bytes@);
                }
            }
            return false;
        }
        if c == 92 {
            let ghost s2 = self.mem();
            let ghost bytes1 = bytes@;
            let more = self.string_escape(b, bytes);
            proof {
                if sl {
                    assert(seq![92u8] + spec_pending(s2, b) =~= pp);
                    if more {
                        let rest = spec_string_body(spec_pending(self.mem(), b));
                        assert(bytes@ + rest.0 =~= bytes1 + (spec_escape(pp).0 + rest.0));
                    } else {
                        assert(bytes@ + Seq::<u8>::empty() =~= bytes@);
                    }
                }
            }
            return more;
        }
        bytes.push(c);
        proof {
            if sl {
                let rest = spec_string_body(spec_pending(self.mem(), b));
                assert(bytes@ + rest.0 =~= bytes0 + (seq![c] + rest.0));
            }
        }
        true
    }

    /// An escape, its backslash already taken: push what it stands for.
    /// Answers false only where the input ends after the backslash.
    fn string_escape(&mut self, b: Obj, bytes: &mut Vec<u8>) -> (more: bool)
        requires
            old(self).wf(),
        ensures
            final(self).wf(),
            final(self).same_rest(old(self)),
            final(self).mem().len() == old(self).mem().len(),
            still(old(self), b) && cursor_apart(old(self).mem(), b) ==> {
                let q = spec_pending(old(self).mem(), b);
                let pp = seq![92u8] + q;
                let after = spec_string_body(spec_pending(final(self).mem(), b));
                &&& still(final(self), b)
                &&& cursor_apart(final(self).mem(), b)
                &&& spec_cursor(final(self).mem(), b) >= spec_cursor(old(self).mem(), b)
                &&& !more ==> q.len() == 0 && final(bytes)@ == old(bytes)@ && *final(self) == *old(self)
                &&& more ==> q.len() > 0 && final(bytes)@ == old(bytes)@ + spec_escape(pp).0
                    && spec_cursor(final(self).mem(), b) == spec_cursor(old(self).mem(), b) + spec_escape(pp).1 - 1
                    && spec_pending(final(self).mem(), b) == pp.subrange(spec_escape(pp).1 as int, pp.len() as int)
            },
    {
        let ghost sl = still(old(self), b) && cursor_apart(old(self).mem(), b);
        let ghost s2 = self.mem();
        let ghost q = spec_pending(s2, b);
        let ghost pp = seq![92u8] + q;
        let ghost bytes0 = bytes@;
        proof {
            if sl {
                lemma_ahead_is_pending(s2, b, 0);
            }
        }
        let e = match self.buf_next_byte(b) {
            Some(e) => e,
            None => {
                return false;
            },
        };
        proof {
            if sl {
                lemma_step_cursor(s2, b);
                assert(pp[1] == e);
                assert(q.drop_first() =~= pp.subrange(2, pp.len() as int));
            }
        }
        if e == 34 {
            bytes.push(34u8);
        } else if e == 92 {
            bytes.push(92u8);
        } else if e == 110 {
            bytes.push(10u8);
        } else if e == 116 {
            bytes.push(9u8);
        } else if e == 114 {
            bytes.push(13u8);
        } else if e == 48 {
            bytes.push(0u8);
        } else if e == 120 {
            let ghost s3 = self.mem();
            proof {
                if sl {
                    lemma_ahead_is_pending(s3, b, 0);
                    lemma_ahead_is_pending(s3, b, 1);
                }
            }
            let h = match self.buf_peek(b) {
                Some(x) => hex_digit(x),
                None => None,
            };
            let l = match self.buf_byte_ahead(b, 1) {
                Some(x) => hex_digit(x),
                None => None,
            };
            match (h, l) {
                (Some(h), Some(l)) => {
                    bytes.push(h * 16 + l);
                    let ghost s4 = self.mem();
                    proof {
                        if sl {
                            lemma_step_cursor(s4, b);
                        }
                    }
                    self.buf_bump(b);
                    let ghost s5 = self.mem();
                    proof {
                        if sl {
                            lemma_step_cursor(s5, b);
                            assert(pp.subrange(2, pp.len() as int).drop_first().drop_first() =~= pp.subrange(
                                4,
                                pp.len() as int,
                            ));
                        }
                    }
                    self.buf_bump(b);
                },
                _ => {
                    bytes.push(92u8);
                    bytes.push(120u8);
                },
            }
        } else {
            bytes.push(92u8);
            bytes.push(e);
        }
        proof {
            if sl {
                assert(bytes@ =~= bytes0 + spec_escape(pp).0);
            }
        }
        true
    }

    /// A string literal after its open quote, escapes decoded. On a buffer
    /// that never refills and whose cursor lies apart, the string holds what
    /// `spec_string_body` decodes of the pending bytes, and the cursor steps
    /// over as many bytes as that takes.
    pub fn buf_read_string(&mut self, b: Obj) -> (r: Obj)
        requires
            old(self).wf(),
        ensures
            final(self).wf(),
            final(self).same_frame(old(self)),
            still(old(self), b) && cursor_apart(old(self).mem(), b) ==> {
                let body = spec_string_body(spec_pending(old(self).mem(), b));
                &&& spec_cursor(final(self).mem(), b) == spec_cursor(old(self).mem(), b) + body.1
                &&& r.0 != 0 ==> spec_is(final(self).mem(), r, crate::objects::STR_BITS)
                &&& r.0 != 0 ==> crate::value::text::stored_at(
                    final(self).mem(),
                    spec_data(final(self).mem(), r, 0),
                    body.0,
                )
                &&& r.0 == 0 ==> crate::value::text::no_room_for_text(old(self).mem().len(), body.0.len())
            },
    {
        let ghost sl = still(old(self), b) && cursor_apart(old(self).mem(), b);
        let ghost p0 = spec_pending(old(self).mem(), b);
        let ghost c0 = spec_cursor(old(self).mem(), b);
        let mut bytes: Vec<u8> = Vec::new();
        let mut budget: u64 = u64::MAX;
        proof {
            assert(bytes@ + spec_string_body(p0).0 =~= spec_string_body(p0).0);
        }
        while budget > 0
            invariant_except_break
                sl ==> bytes@ + spec_string_body(spec_pending(self.mem(), b)).0 == spec_string_body(p0).0,
                sl ==> spec_cursor(self.mem(), b) - c0 + spec_string_body(spec_pending(self.mem(), b)).1
                    == spec_string_body(p0).1,
                sl ==> spec_pending(self.mem(), b).len() <= budget,
            invariant
                self.wf(),
                self.same_rest(old(self)),
                self.mem().len() == old(self).mem().len(),
                sl ==> still(self, b) && cursor_apart(self.mem(), b),
                sl ==> spec_cursor(self.mem(), b) >= c0,
                sl == (still(old(self), b) && cursor_apart(old(self).mem(), b)),
                p0 == spec_pending(old(self).mem(), b),
                c0 == spec_cursor(old(self).mem(), b),
            ensures
                sl ==> bytes@ == spec_string_body(p0).0 && spec_cursor(self.mem(), b) - c0 == spec_string_body(p0).1,
            decreases budget,
        {
            budget = budget - 1;
            let ghost b0 = bytes@;
            let ghost s1 = self.mem();
            if !self.string_step(b, &mut bytes) {
                proof {
                    if sl {
                        assert(b0 + spec_string_body(spec_pending(s1, b)).0 == spec_string_body(p0).0);
                    }
                }
                break;
            }
            proof {
                if sl {
                    assert(bytes@ + spec_string_body(spec_pending(self.mem(), b)).0 =~= b0 + spec_string_body(
                        spec_pending(s1, b),
                    ).0);
                }
            }
        }
        let ghost s6 = self.mem();
        let r = self.str_from_bytes(bytes.as_slice());
        proof {
            if sl {
                lemma_grew_word(s6, self.mem(), spec_slot(b, 1));
                lemma_grew_word(s6, self.mem(), spec_slot(spec_marks(s6, b), 0));
            }
        }
        r
    }

    /// Step the cursor over the UTF-8 continuation bytes at its head.
    fn scan_cont(&mut self, b: Obj)
        requires
            old(self).wf(),
        ensures
            final(self).wf(),
            final(self).same_rest(old(self)),
            final(self).mem().len() == old(self).mem().len(),
            still(old(self), b) && cursor_apart(old(self).mem(), b) ==> {
                let p = spec_pending(old(self).mem(), b);
                let n = spec_cont_len(p);
                &&& still(final(self), b)
                &&& cursor_apart(final(self).mem(), b)
                &&& spec_cursor(final(self).mem(), b) == spec_cursor(old(self).mem(), b) + n
                &&& spec_pending(final(self).mem(), b) == p.subrange(n as int, p.len() as int)
                &&& cursor_word(final(self).mem(), b) == cursor_word(old(self).mem(), b)
                &&& forall|i: int|
                    0 <= i < old(self).mem().len() && i != cursor_word(old(self).mem(), b) ==> final(self).mem()[i]
                        == old(self).mem()[i]
            },
    {
        let ghost sl = still(old(self), b) && cursor_apart(old(self).mem(), b);
        let ghost s0 = self.mem();
        let ghost p0 = spec_pending(s0, b);
        let ghost m = cursor_word(s0, b);
        let ghost c0 = spec_cursor(s0, b);
        let mut budget: u64 = u64::MAX;
        while budget > 0
            invariant_except_break
                sl ==> spec_pending(self.mem(), b).len() <= budget,
            invariant
                self.wf(),
                self.same_rest(old(self)),
                self.mem().len() == old(self).mem().len(),
                s0 == old(self).mem(),
                sl == (still(old(self), b) && cursor_apart(s0, b)),
                p0 == spec_pending(s0, b),
                m == cursor_word(s0, b),
                c0 == spec_cursor(s0, b),
                sl ==> still(self, b) && cursor_apart(self.mem(), b),
                sl ==> spec_cursor(self.mem(), b) >= c0,
                sl ==> spec_pending(self.mem(), b) == p0.subrange(spec_cursor(self.mem(), b) - c0, p0.len() as int),
                sl ==> spec_cont_len(p0) == spec_cursor(self.mem(), b) - c0 + spec_cont_len(spec_pending(self.mem(), b)),
                sl ==> forall|i: int| 0 <= i < s0.len() && i != m ==> self.mem()[i] == s0[i],
                sl ==> cursor_word(self.mem(), b) == m,
            ensures
                sl ==> spec_cont_len(p0) == spec_cursor(self.mem(), b) - c0,
            decreases budget,
        {
            budget = budget - 1;
            let ghost s1 = self.mem();
            proof {
                if sl {
                    lemma_ahead_is_pending(s1, b, 0);
                }
            }
            match self.buf_peek(b) {
                Some(c) => {
                    if !(c & 0xc0 == 0x80) {
                        break;
                    }
                    proof {
                        if sl {
                            lemma_step_cursor(s1, b);
                        }
                    }
                    self.buf_bump(b);
                    proof {
                        if sl {
                            let k = spec_cursor(s1, b) - c0;
                            assert(p0.subrange(k, p0.len() as int).drop_first() =~= p0.subrange(k + 1, p0.len() as int));
                        }
                    }
                },
                None => {
                    break;
                },
            }
        }
    }

    /// Step the cursor over the letters at its head.
    fn scan_letters(&mut self, b: Obj)
        requires
            old(self).wf(),
        ensures
            final(self).wf(),
            final(self).same_rest(old(self)),
            final(self).mem().len() == old(self).mem().len(),
            still(old(self), b) && cursor_apart(old(self).mem(), b) ==> {
                let p = spec_pending(old(self).mem(), b);
                let n = spec_alpha_len(p);
                &&& still(final(self), b)
                &&& cursor_apart(final(self).mem(), b)
                &&& spec_cursor(final(self).mem(), b) == spec_cursor(old(self).mem(), b) + n
                &&& spec_pending(final(self).mem(), b) == p.subrange(n as int, p.len() as int)
                &&& cursor_word(final(self).mem(), b) == cursor_word(old(self).mem(), b)
                &&& forall|i: int|
                    0 <= i < old(self).mem().len() && i != cursor_word(old(self).mem(), b) ==> final(self).mem()[i]
                        == old(self).mem()[i]
            },
    {
        let ghost sl = still(old(self), b) && cursor_apart(old(self).mem(), b);
        let ghost s0 = self.mem();
        let ghost p0 = spec_pending(s0, b);
        let ghost m = cursor_word(s0, b);
        let ghost c0 = spec_cursor(s0, b);
        let mut budget: u64 = u64::MAX;
        while budget > 0
            invariant_except_break
                sl ==> spec_pending(self.mem(), b).len() <= budget,
            invariant
                self.wf(),
                self.same_rest(old(self)),
                self.mem().len() == old(self).mem().len(),
                s0 == old(self).mem(),
                sl == (still(old(self), b) && cursor_apart(s0, b)),
                p0 == spec_pending(s0, b),
                m == cursor_word(s0, b),
                c0 == spec_cursor(s0, b),
                sl ==> still(self, b) && cursor_apart(self.mem(), b),
                sl ==> spec_cursor(self.mem(), b) >= c0,
                sl ==> spec_pending(self.mem(), b) == p0.subrange(spec_cursor(self.mem(), b) - c0, p0.len() as int),
                sl ==> spec_alpha_len(p0) == spec_cursor(self.mem(), b) - c0 + spec_alpha_len(spec_pending(self.mem(), b)),
                sl ==> forall|i: int| 0 <= i < s0.len() && i != m ==> self.mem()[i] == s0[i],
                sl ==> cursor_word(self.mem(), b) == m,
            ensures
                sl ==> spec_alpha_len(p0) == spec_cursor(self.mem(), b) - c0,
            decreases budget,
        {
            budget = budget - 1;
            let ghost s1 = self.mem();
            proof {
                if sl {
                    lemma_ahead_is_pending(s1, b, 0);
                }
            }
            match self.buf_peek(b) {
                Some(c) => {
                    if !(is_alpha(c)) {
                        break;
                    }
                    proof {
                        if sl {
                            lemma_step_cursor(s1, b);
                        }
                    }
                    self.buf_bump(b);
                    proof {
                        if sl {
                            let k = spec_cursor(s1, b) - c0;
                            assert(p0.subrange(k, p0.len() as int).drop_first() =~= p0.subrange(k + 1, p0.len() as int));
                        }
                    }
                },
                None => {
                    break;
                },
            }
        }
    }

    /// A character literal after its `#\`: a multibyte character whole, a
    /// non-letter at once, a lone letter as itself, or one of the nine names.
    /// On a buffer that never refills and whose cursor lies apart, it reads
    /// as `spec_char_lit` says and the cursor steps over what that takes;
    /// with nothing pending it is nil and nothing moves.
    pub fn buf_read_char(&mut self, b: Obj) -> (r: Obj)
        requires
            old(self).wf(),
        ensures
            final(self).wf(),
            final(self).same_frame(old(self)),
            still(old(self), b) && cursor_apart(old(self).mem(), b) ==> {
                let p = spec_pending(old(self).mem(), b);
                &&& p.len() == 0 ==> r.0 == 0 && *final(self) == *old(self)
                &&& p.len() > 0 ==> spec_cursor(final(self).mem(), b) == spec_cursor(old(self).mem(), b)
                    + spec_char_lit(p).1
                &&& p.len() > 0 && r.0 != 0 ==> spec_is(final(self).mem(), r, crate::objects::CHAR_BITS) && spec_data(
                    final(self).mem(),
                    r,
                    0,
                ) == spec_char_lit(p).0 as u64
                &&& p.len() > 0 && r.0 == 0 ==> old(self).mem().len() + 5 > crate::heap::MAX_WORDS
                    - crate::objects::META_MAX
            },
    {
        let ghost sl = still(old(self), b) && cursor_apart(old(self).mem(), b);
        let ghost s0 = self.mem();
        let ghost p = spec_pending(s0, b);
        let ghost m = cursor_word(s0, b);
        let ghost c0 = spec_cursor(s0, b);
        proof {
            if sl {
                lemma_ahead_is_pending(s0, b, 0);
            }
        }
        let first = match self.buf_peek(b) {
            Some(c) => c,
            None => {
                return nil();
            },
        };
        proof {
            if sl {
                lemma_step_cursor(s0, b);
            }
        }
        self.buf_bump(b);
        let ghost s1 = self.mem();
        if first >= 0x80 {
            let start = crate::obj::sub_wrapping(self.buf_cursor(b), 1);
            self.scan_cont(b);
            let end = self.buf_cursor(b);
            let ghost s2 = self.mem();
            proof {
                if sl {
                    lemma_span_is_pending(s0, s2, b, start, end);
                }
            }
            let bytes = self.buf_slice(b, start, end);
            let cp = decode_utf8(bytes.as_slice());
            let r = self.char_new(cp);
            proof {
                if sl {
                    assert(p.drop_first().subrange(0, (end - start - 1) as int) =~= p.subrange(1, (end - start) as int));
                    lemma_grew_word(s2, self.mem(), spec_slot(b, 1));
                    lemma_grew_word(s2, self.mem(), spec_slot(spec_marks(s2, b), 0));
                }
            }
            return r;
        }
        if !is_alpha(first) {
            let r = self.char_new(first as u32);
            proof {
                if sl {
                    lemma_grew_word(s1, self.mem(), spec_slot(b, 1));
                    lemma_grew_word(s1, self.mem(), spec_slot(spec_marks(s1, b), 0));
                }
            }
            return r;
        }
        let start = crate::obj::sub_wrapping(self.buf_cursor(b), 1);
        self.scan_letters(b);
        let end = self.buf_cursor(b);
        let ghost s2 = self.mem();
        proof {
            if sl {
                lemma_span_is_pending(s0, s2, b, start, end);
            }
        }
        let name = self.buf_slice(b, start, end);
        if name.len() == 1 {
            let r = self.char_new(first as u32);
            proof {
                if sl {
                    lemma_grew_word(s2, self.mem(), spec_slot(b, 1));
                    lemma_grew_word(s2, self.mem(), spec_slot(spec_marks(s2, b), 0));
                }
            }
            return r;
        }
        if let Some(cp) = named_char(name.as_slice()) {
            let r = self.char_new(cp);
            proof {
                if sl {
                    lemma_grew_word(s2, self.mem(), spec_slot(b, 1));
                    lemma_grew_word(s2, self.mem(), spec_slot(spec_marks(s2, b), 0));
                }
            }
            return r;
        }
        self.set_buf_cursor(b, crate::obj::add_wrapping(start, 1));
        let ghost s3 = self.mem();
        proof {
            if sl {
                let marks = spec_marks(s2, b);
                crate::heap::lemma_set_word_read(s2, spec_slot(marks, 0), spec_slot(marks, 0), (c0 + 1) as u64);
                crate::heap::lemma_set_word_read(s2, spec_slot(marks, 0), spec_slot(b, 1), (c0 + 1) as u64);
            }
        }
        let r = self.char_new(first as u32);
        proof {
            if sl {
                lemma_grew_word(s3, self.mem(), spec_slot(b, 1));
                lemma_grew_word(s3, self.mem(), spec_slot(spec_marks(s3, b), 0));
            }
        }
        r
    }

    /// An atom: up to a blank, a paren or a comment, read as an integer when
    /// it spells one and as a symbol otherwise.
    pub fn buf_read_atom(&mut self, b: Obj) -> (r: Obj)
        requires
            old(self).wf(),
        ensures
            final(self).wf(),
            final(self).same_frame(old(self)),
            still(old(self), b) && cursor_apart(old(self).mem(), b) ==> {
                let p = spec_pending(old(self).mem(), b);
                let n = spec_atom_len(p);
                let run = p.subrange(0, n as int);
                &&& n == 0 ==> r.0 == 0
                &&& n == 0 ==> final(self).mem() == with_data(
                    old(self).mem(),
                    spec_marks(old(self).mem(), b),
                    0,
                    wrap_add(spec_cursor(old(self).mem(), b), 1),
                )
                &&& n > 0 ==> spec_cursor(final(self).mem(), b) == spec_cursor(old(self).mem(), b) + n
                &&& n > 0 ==> atom_read_as(*old(self), *final(self), run, r)
            },
    {
        let ghost sl = still(old(self), b) && cursor_apart(old(self).mem(), b);
        let ghost s0 = self.mem();
        let ghost p0 = spec_pending(s0, b);
        let ghost m = cursor_word(s0, b);
        let start = self.buf_cursor(b);
        let mut budget: u64 = u64::MAX;
        while budget > 0
            invariant_except_break
                sl ==> spec_pending(self.mem(), b).len() <= budget,
            invariant
                self.wf(),
                self.same_rest(old(self)),
                self.mem().len() == old(self).mem().len(),
                s0 == old(self).mem(),
                sl == (still(old(self), b) && cursor_apart(s0, b)),
                p0 == spec_pending(s0, b),
                m == cursor_word(s0, b),
                start == spec_cursor(s0, b),
                sl ==> still(self, b) && cursor_apart(self.mem(), b),
                sl ==> spec_cursor(self.mem(), b) >= start,
                sl ==> spec_pending(self.mem(), b) == p0.subrange(
                    spec_cursor(self.mem(), b) - start,
                    p0.len() as int,
                ),
                sl ==> spec_atom_len(p0) == spec_cursor(self.mem(), b) - start + spec_atom_len(
                    spec_pending(self.mem(), b),
                ),
                sl ==> forall|i: int| 0 <= i < s0.len() && i != m ==> self.mem()[i] == s0[i],
                sl ==> cursor_word(self.mem(), b) == m,
            ensures
                sl ==> spec_atom_len(p0) == spec_cursor(self.mem(), b) - start,
            decreases budget,
        {
            budget = budget - 1;
            let ghost s1 = self.mem();
            proof {
                if sl {
                    lemma_ahead_is_pending(s1, b, 0);
                }
            }
            match self.buf_peek(b) {
                Some(c) => {
                    if is_blank(c) || c == 40 || c == 41 || c == 59 {
                        break;
                    }
                    proof {
                        if sl {
                            lemma_step_cursor(s1, b);
                        }
                    }
                    self.buf_bump(b);
                    proof {
                        if sl {
                            let k = spec_cursor(s1, b) - start;
                            assert(p0.subrange(k, p0.len() as int).drop_first() =~= p0.subrange(k + 1, p0.len() as int));
                        }
                    }
                },
                None => {
                    break;
                },
            }
        }
        let end = self.buf_cursor(b);
        let ghost s2 = self.mem();
        proof {
            if sl {
                let ta = spec_text_base(s0, b);
                let text = crate::value::tok::spec_buf_text(s0, b);
                lemma_same_but(s0, s2, m, spec_slot(b, 2));
                if text.0 != 0 {
                    lemma_same_but(s0, s2, m, spec_slot(text, 0));
                }
                assert(spec_text_base(s2, b) == ta);
                let run = p0.subrange(0, (end - start) as int);
                assert forall|j: int| 0 <= j < run.len() implies #[trigger] spec_span(s2, ta, start, end)[j] == run[j] by {
                    let a = wrap_add(ta, (start + j) as u64);
                    assert(((a / 8) as int) != m);
                    lemma_same_but(s0, s2, m, a);
                }
                assert(spec_span(s2, ta, start, end) =~= run);
            }
        }
        proof {
            if sl && end == start {
                assert(s2 =~= s0);
            }
        }
        let r = self.buf_atom_from(b, start, end);
        proof {
            if sl && end > start {
                lemma_grew_word(s2, self.mem(), spec_slot(b, 1));
                lemma_grew_word(s2, self.mem(), spec_slot(spec_marks(s2, b), 0));
            }
        }
        r
    }

    /// The atom the buffer's text spells from `start` to `end`; an empty one
    /// steps over the byte and reads as nil.
    pub fn buf_atom_from(&mut self, b: Obj, start: u64, end: u64) -> (r: Obj)
        requires
            old(self).wf(),
        ensures
            final(self).wf(),
            final(self).same_frame(old(self)),
            ({
                let bytes = spec_span(old(self).mem(), spec_text_base(old(self).mem(), b), start, end);
                &&& bytes.len() == 0 ==> r.0 == 0
                &&& bytes.len() == 0 ==> final(self).mem() == with_data(
                    old(self).mem(),
                    spec_marks(old(self).mem(), b),
                    0,
                    wrap_add(spec_cursor(old(self).mem(), b), 1),
                )
                &&& bytes.len() > 0 ==> crate::objects::grew(old(self).mem(), final(self).mem())
                &&& bytes.len() > 0 && spec_parse_int(bytes) is Some && r.0 != 0 ==> spec_is(
                    final(self).mem(),
                    r,
                    crate::objects::INT_BITS,
                ) && crate::obj::word_signed(spec_data(final(self).mem(), r, 0)) == spec_parse_int(bytes)->0
                &&& bytes.len() > 0 && spec_parse_int(bytes) is Some && r.0 == 0 ==> final(self).mem().len() + 5
                    > crate::heap::MAX_WORDS - crate::objects::META_MAX
                &&& bytes.len() > 0 && spec_parse_int(bytes) is None ==> Objects::interned_by(
                    *old(self),
                    *final(self),
                    bytes,
                    r,
                )
            }),
    {
        let bytes = self.buf_slice(b, start, end);
        if bytes.len() == 0 {
            self.buf_bump(b);
            return nil();
        }
        match parse_int(bytes.as_slice()) {
            Some(v) => {
                let r = self.int_new(v);
                proof {
                    crate::obj::lemma_signed_word_round_trip(v);
                }
                r
            },
            None => self.sym_bytes(bytes.as_slice()),
        }
    }
}

/// The code point a UTF-8 sequence spells; zero for a malformed one.
/// The code point UTF-8 bytes begin with: a lead byte's payload bits, then
/// six from each continuation byte, in order; zero when the bytes are too
/// few for the lead byte or it cannot lead.
pub open spec fn spec_utf8(b: Seq<u8>) -> int {
    if b.len() == 0 {
        0
    } else if b[0] < 0x80 {
        b[0] as int
    } else if 0xC0 <= b[0] < 0xE0 && b.len() >= 2 {
        (b[0] % 32) * 64 + b[1] % 64
    } else if 0xE0 <= b[0] < 0xF0 && b.len() >= 3 {
        (b[0] % 16) * 4096 + (b[1] % 64) * 64 + b[2] % 64
    } else if 0xF0 <= b[0] && b.len() >= 4 {
        (b[0] % 8) * 262144 + (b[1] % 64) * 4096 + (b[2] % 64) * 64 + b[3] % 64
    } else {
        0
    }
}

pub fn decode_utf8(b: &[u8]) -> (r: u32)
    ensures
        r == spec_utf8(b@),
{
    let n = b.len();
    if n == 0 {
        return 0;
    }
    let c0 = b[0] as u32;
    if c0 < 0x80 {
        return c0;
    }
    let c1: u32 = if n >= 2 { b[1] as u32 } else { 0 };
    let c2: u32 = if n >= 3 { b[2] as u32 } else { 0 };
    let c3: u32 = if n >= 4 { b[3] as u32 } else { 0 };
    if c0 >= 0xC0 && c0 < 0xE0 && n >= 2 {
        assert(((c0 & 0x1F) << 6) | (c1 & 0x3F) == (c0 % 32) * 64 + c1 % 64) by (bit_vector)
            requires
                c0 < 256,
                c1 < 256,
        ;
        return ((c0 & 0x1F) << 6) | (c1 & 0x3F);
    }
    if c0 >= 0xE0 && c0 < 0xF0 && n >= 3 {
        assert(((c0 & 0x0F) << 12) | ((c1 & 0x3F) << 6) | (c2 & 0x3F) == (c0 % 16) * 4096 + (c1 % 64) * 64 + c2
            % 64) by (bit_vector)
            requires
                c0 < 256,
                c1 < 256,
                c2 < 256,
        ;
        return ((c0 & 0x0F) << 12) | ((c1 & 0x3F) << 6) | (c2 & 0x3F);
    }
    if c0 >= 0xF0 && n >= 4 {
        assert(((c0 & 0x07) << 18) | ((c1 & 0x3F) << 12) | ((c2 & 0x3F) << 6) | (c3 & 0x3F) == (c0 % 8) * 262144
            + (c1 % 64) * 4096 + (c2 % 64) * 64 + c3 % 64) by (bit_vector)
            requires
                c0 < 256,
                c1 < 256,
                c2 < 256,
                c3 < 256,
        ;
        return ((c0 & 0x07) << 18) | ((c1 & 0x3F) << 12) | ((c2 & 0x3F) << 6) | (c3 & 0x3F);
    }
    0
}

} // verus!
