//! Machine arithmetic on the integer in an operand's first data word.
//!
//! Arithmetic wraps; shifts are on the unsigned word, their count masked to
//! six bits; division by zero, and the one overflowing division, answer zero.

use crate::diag::Cond;
use crate::engine::Engine;
use crate::obj::{i64_to_word, nil, signed_word, word_modulus, word_signed, word_to_i64, Obj};
use crate::vocabulary::Family;
use crate::prim::PrimId;
use crate::objects::Objects;
use vstd::prelude::*;
use vstd::arithmetic::power2::pow2;

verus! {

/// The shift count an operand names: its word's low six bits.
pub open spec fn shift_count(y: i64) -> nat {
    ((y as u64) % 64) as nat
}

/// `x << y`: the word's low `64 - n` bits moved up by `n`, for `n` the
/// shift count.
pub open spec fn spec_shl(x: i64, y: i64) -> nat {
    (signed_word(x) as nat % pow2((64 - shift_count(y)) as nat)) * pow2(shift_count(y))
}

/// `x >> y`: the unsigned word divided by two to the shift count.
pub open spec fn spec_shr(x: i64, y: i64) -> nat {
    signed_word(x) as nat / pow2(shift_count(y))
}

/// The count's low six bits are its remainder by 64.
proof fn lemma_count(y: i64)
    ensures
        ((y as u64) & 63) == (y as u64) % 64,
        ((y as u64) & 63) < 64,
{
    let w = y as u64;
    assert(w & 63 == w % 64) by (bit_vector);
}

/// `x << y` on the unsigned word, the count masked to six bits.
pub fn shl(x: i64, y: i64) -> (r: i64)
    ensures
        spec_shl(x, y) < word_modulus(),
        r == word_signed(spec_shl(x, y) as u64),
{
    let w: u64 = y as u64;
    let s: u64 = w & 63;
    proof {
        lemma_count(y);
    }
    let u: u64 = i64_to_word(x);
    let v: u64 = u << s;
    proof {
        vstd::arithmetic::power2::lemma2_to64();
        vstd::arithmetic::power2::lemma2_to64_rest();
        if s == 0 {
            assert(u << 0 == u) by (bit_vector);
            assert(u as nat % pow2(64) == u as nat);
        } else {
            let n: u64 = (64 - s) as u64;
            vstd::bits::lemma_u64_pow2_no_overflow(n as nat);
            vstd::bits::lemma_u64_shl_is_mul(1, n);
            let mask: u64 = ((1u64 << n) - 1) as u64;
            assert(mask == vstd::bits::low_bits_mask(n as nat) as u64);
            vstd::bits::lemma_u64_low_bits_mask_is_mod(u, n as nat);
            let lo: u64 = u & mask;
            assert(u << s == lo << s) by (bit_vector)
                requires
                    0 < s < 64,
                    n == 64 - s,
                    mask == ((1u64 << n) - 1) as u64,
                    lo == u & mask,
            ;
            vstd::arithmetic::power2::lemma_pow2_adds(n as nat, s as nat);
            vstd::arithmetic::power2::lemma_pow2_pos(s as nat);
            assert(lo < pow2(n as nat));
            assert(lo * pow2(s as nat) <= u64::MAX) by (nonlinear_arith)
                requires
                    lo < pow2(n as nat),
                    pow2(n as nat) * pow2(s as nat) == 0x1_0000_0000_0000_0000,
                    pow2(s as nat) > 0,
            ;
            vstd::bits::lemma_u64_shl_is_mul(lo, s);
            assert(shift_count(y) == s as nat);
            assert(lo as nat == u as nat % pow2(n as nat));
            assert(v == lo * pow2(s as nat));
        }
        assert(shift_count(y) == s as nat);
    }
    word_to_i64(v)
}

/// `x >> y` on the unsigned word: a logical shift.
pub fn shr(x: i64, y: i64) -> (r: i64)
    ensures
        spec_shr(x, y) < word_modulus(),
        r == word_signed(spec_shr(x, y) as u64),
{
    let w: u64 = y as u64;
    let s: u64 = w & 63;
    proof {
        lemma_count(y);
    }
    let u: u64 = i64_to_word(x);
    let v: u64 = u >> s;
    proof {
        vstd::bits::lemma_u64_shr_is_div(u, s);
        vstd::arithmetic::power2::lemma_pow2_pos(s as nat);
        assert(shift_count(y) == s as nat);
        assert(u as nat / pow2(s as nat) <= u as nat) by {
            vstd::arithmetic::div_mod::lemma_div_is_ordered_by_denominator(u as int, 1, pow2(s as nat) as int);
        }
    }
    word_to_i64(v)
}

/// The magnitude of a signed integer, as a word.
fn magnitude(x: i64) -> (r: u64)
    ensures
        r == if x < 0 { -(x as int) } else { x as int },
{
    if x >= 0 {
        x as u64
    } else if x == i64::MIN {
        0x8000_0000_0000_0000u64
    } else {
        (-x) as u64
    }
}

/// The truncated quotient; zero for a zero divisor and for the one quotient
/// that overflows.
pub open spec fn spec_div(x: int, y: int) -> int {
    if y == 0 || (x == i64::MIN && y == -1) {
        0
    } else {
        let q = (if x < 0 { -x } else { x }) / (if y < 0 { -y } else { y });
        if (x < 0) != (y < 0) {
            -q
        } else {
            q
        }
    }
}

/// The remainder that goes with the truncated quotient, taking the
/// dividend's sign; zero where the quotient is refused.
pub open spec fn spec_rem(x: int, y: int) -> int {
    if y == 0 || (x == i64::MIN && y == -1) {
        0
    } else {
        let m = (if x < 0 { -x } else { x }) % (if y < 0 { -y } else { y });
        if x < 0 {
            -m
        } else {
            m
        }
    }
}

/// Division's law: where a quotient is given, quotient times divisor plus
/// remainder is the dividend, and the remainder is smaller than the divisor
/// and takes the dividend's sign.
pub proof fn law_quotient_and_remainder_rebuild_the_dividend(x: i64, y: i64)
    requires
        y != 0,
        !(x == i64::MIN && y == -1),
    ensures
        spec_div(x as int, y as int) * y + spec_rem(x as int, y as int) == x,
        -(if y < 0 { -y } else { y as int }) < spec_rem(x as int, y as int) < (if y < 0 { -y } else { y as int }),
        x >= 0 ==> spec_rem(x as int, y as int) >= 0,
        x < 0 ==> spec_rem(x as int, y as int) <= 0,
{
    let ax: int = if x < 0 { -x } else { x as int };
    let ay: int = if y < 0 { -y } else { y as int };
    let q = ax / ay;
    let m = ax % ay;
    assert(ax == q * ay + m && 0 <= m < ay) by (nonlinear_arith)
        requires
            ay > 0,
            ax >= 0,
            q == ax / ay,
            m == ax % ay,
    ;
    if x < 0 && y < 0 {
        assert(q * y + (-m) == x) by (nonlinear_arith)
            requires
                ax == -x,
                ay == -y,
                ax == q * ay + m,
        ;
    } else if x < 0 {
        assert((-q) * y + (-m) == x) by (nonlinear_arith)
            requires
                ax == -x,
                ay == y,
                ax == q * ay + m,
        ;
    } else if y < 0 {
        assert((-q) * y + m == x) by (nonlinear_arith)
            requires
                ax == x,
                ay == -y,
                ax == q * ay + m,
        ;
    } else {
        assert(q * y + m == x) by (nonlinear_arith)
            requires
                ax == x,
                ay == y,
                ax == q * ay + m,
        ;
    }
}

/// Integer division, truncating toward zero.
pub fn div(x: i64, y: i64) -> (r: i64)
    ensures
        r == spec_div(x as int, y as int),
{
    if y == 0 || (x == i64::MIN && y == -1) {
        return 0;
    }
    let mx = magnitude(x);
    let my = magnitude(y);
    let q: u64 = mx / my;
    if (x < 0) != (y < 0) {
        if q == 0x8000_0000_0000_0000u64 {
            i64::MIN
        } else {
            -(q as i64)
        }
    } else {
        assert(q <= 0x7fff_ffff_ffff_ffff) by {
            if my == 1 {
                assert(x != i64::MIN);
                assert(q == mx);
            } else {
                vstd::arithmetic::div_mod::lemma_div_is_ordered_by_denominator(mx as int, 2, my as int);
                assert(mx as int / 2 <= 0x4000_0000_0000_0000);
            }
        }
        q as i64
    }
}

/// The remainder of truncating division.
pub fn rem(x: i64, y: i64) -> (r: i64)
    ensures
        r == spec_rem(x as int, y as int),
{
    if y == 0 || (x == i64::MIN && y == -1) {
        return 0;
    }
    let m: u64 = magnitude(x) % magnitude(y);
    if x < 0 {
        -(m as i64)
    } else {
        m as i64
    }
}

/// The signed word congruent to `v` modulo two to the 64: machine
/// arithmetic's wrap.
pub open spec fn wrap_i64(v: int) -> i64 {
    word_signed((v % word_modulus()) as u64)
}

/// A value already in range wraps to itself, and wrapping ignores whole
/// multiples of the modulus.
proof fn lemma_wrap(v: int)
    ensures
        i64::MIN <= v <= i64::MAX ==> wrap_i64(v) == v,
        wrap_i64(v + word_modulus()) == wrap_i64(v),
        wrap_i64(v - word_modulus()) == wrap_i64(v),
{
    vstd::arithmetic::div_mod::lemma_mod_add_multiples_vanish(v, word_modulus());
    vstd::arithmetic::div_mod::lemma_mod_sub_multiples_vanish(v, word_modulus());
    if 0 <= v <= i64::MAX {
        vstd::arithmetic::div_mod::lemma_small_mod(v as nat, word_modulus() as nat);
    }
    if i64::MIN <= v < 0 {
        vstd::arithmetic::div_mod::lemma_small_mod((v + word_modulus()) as nat, word_modulus() as nat);
    }
}

/// Is this one of the two-operand arithmetic instructions?
pub open spec fn is_arith(id: PrimId) -> bool {
    ||| id is Add
    ||| id is Sub
    ||| id is Mul
    ||| id is Div
    ||| id is Rem
    ||| id is BitAnd
    ||| id is BitOr
    ||| id is BitXor
    ||| id is Shl
    ||| id is Shr
}

/// What a two-operand arithmetic instruction answers for operand values `x`
/// and `y`: sums, differences and products wrap; division truncates and
/// answers zero where it is refused; the bitwise operators work on the
/// words; shifts work on the unsigned word.
pub open spec fn spec_arith(id: PrimId, x: i64, y: i64) -> i64 {
    match id {
        PrimId::Add => wrap_i64(x + y),
        PrimId::Sub => wrap_i64(x - y),
        PrimId::Mul => wrap_i64(x * y),
        PrimId::Div => spec_div(x as int, y as int) as i64,
        PrimId::Rem => spec_rem(x as int, y as int) as i64,
        PrimId::BitAnd => x & y,
        PrimId::BitOr => x | y,
        PrimId::BitXor => x ^ y,
        PrimId::Shl => word_signed(spec_shl(x, y) as u64),
        _ => word_signed(spec_shr(x, y) as u64),
    }
}

/// Run a two-operand arithmetic instruction on operand values.
pub fn arith(id: PrimId, x: i64, y: i64) -> (r: i64)
    requires
        is_arith(id),
    ensures
        r == spec_arith(id, x, y),
{
    match id {
        PrimId::Add => {
            proof {
                lemma_wrap(x + y);
                lemma_wrap(x + y - word_modulus());
                lemma_wrap(x + y + word_modulus());
            }
            x.wrapping_add(y)
        },
        PrimId::Sub => {
            proof {
                lemma_wrap(x - y);
                lemma_wrap(x - y - word_modulus());
                lemma_wrap(x - y + word_modulus());
            }
            x.wrapping_sub(y)
        },
        PrimId::Mul => x.wrapping_mul(y),
        PrimId::Div => {
            let q = div(x, y);
            q
        },
        PrimId::Rem => {
            let m = rem(x, y);
            m
        },
        PrimId::BitAnd => x & y,
        PrimId::BitOr => x | y,
        PrimId::BitXor => x ^ y,
        PrimId::Shl => shl(x, y),
        _ => shr(x, y),
    }
}

/// Where a tower instruction goes once its operands' types have been asked
/// for a handler of it.
pub enum OpRoute {
    /// Neither type handles it: the machine operation runs.
    Machine,
    /// This handler is called with the two operands.
    Call(Obj),
    /// `=` on values of unrelated types: not equal.
    Unequal,
    /// Both types handle it and neither converts from the other: refused.
    Refuse,
}

/// The route for handlers `ha` and `hb` found on the two operands' types:
/// one handler is used; of two, the first operand's when the types are one
/// type or the first type converts from the second, the second's when it
/// converts from the first; otherwise `=` answers unequal and the rest are
/// refused.
pub open spec fn spec_op_route(
    ha: Option<Obj>,
    hb: Option<Obj>,
    same: bool,
    a_from_b: bool,
    b_from_a: bool,
    is_eq: bool,
) -> OpRoute {
    match (ha, hb) {
        (None, None) => OpRoute::Machine,
        (Some(h), None) => OpRoute::Call(h),
        (None, Some(h)) => OpRoute::Call(h),
        (Some(h), Some(o)) => {
            if same || a_from_b {
                OpRoute::Call(h)
            } else if b_from_a {
                OpRoute::Call(o)
            } else if is_eq {
                OpRoute::Unequal
            } else {
                OpRoute::Refuse
            }
        },
    }
}

/// Decide a tower instruction's route.
pub fn op_route(
    ha: Option<Obj>,
    hb: Option<Obj>,
    same: bool,
    a_from_b: bool,
    b_from_a: bool,
    is_eq: bool,
) -> (r: OpRoute)
    ensures
        r == spec_op_route(ha, hb, same, a_from_b, b_from_a, is_eq),
{
    match (ha, hb) {
        (None, None) => OpRoute::Machine,
        (Some(h), None) => OpRoute::Call(h),
        (None, Some(h)) => OpRoute::Call(h),
        (Some(h), Some(o)) => {
            if same || a_from_b {
                OpRoute::Call(h)
            } else if b_from_a {
                OpRoute::Call(o)
            } else if is_eq {
                OpRoute::Unequal
            } else {
                OpRoute::Refuse
            }
        },
    }
}

/// The tower instructions: the arithmetic a type can take over, and the two
/// comparisons.
pub open spec fn is_tower(id: PrimId) -> bool {
    ||| id is Add
    ||| id is Sub
    ||| id is Mul
    ||| id is Div
    ||| id is Rem
    ||| id is Lt
    ||| id is NumEq
}

/// The spelling a tower instruction is registered under in an ops alist.
pub fn tower_spelling(id: PrimId) -> (r: &'static str)
    ensures
        r@ == match id {
            PrimId::Add => "+"@,
            PrimId::Sub => "-"@,
            PrimId::Mul => "*"@,
            PrimId::Div => "/"@,
            PrimId::Rem => "%"@,
            PrimId::Lt => "<"@,
            _ => "="@,
        },
{
    match id {
        PrimId::Add => "+",
        PrimId::Sub => "-",
        PrimId::Mul => "*",
        PrimId::Div => "/",
        PrimId::Rem => "%",
        PrimId::Lt => "<",
        _ => "=",
    }
}

/// The rest of the first of `entries` from `i` on whose first is `key`.
pub open spec fn spec_alist_find(s: Seq<u64>, entries: Seq<Obj>, key: Obj, i: nat) -> Option<Obj>
    decreases entries.len() - i,
{
    if i >= entries.len() {
        None
    } else if crate::objects::spec_data(s, entries[i as int], 0) == key.0 {
        Some(Obj(crate::objects::spec_data(s, entries[i as int], 1)))
    } else {
        spec_alist_find(s, entries, key, i + 1)
    }
}

/// `x` is nil, or carries a type that files no handler under its ops
/// family: no operator of its type can take an instruction over.
pub open spec fn no_ops_in(o: &crate::objects::Objects, x: Obj) -> bool {
    x.0 == 0 || (o.carries_type(x) && crate::value::typed::spec_type_handler(
        o.mem(),
        Obj(crate::objects::spec_type_word(o.mem(), x)),
        Family::Ops,
    ).0 == 0)
}

impl Engine {
    /// The entry of an alist whose first is `key`, by identity: its rest.
    fn alist_get(&self, alist: Obj, key: Obj) -> (r: Option<Obj>)
        requires
            self.wf(),
        ensures
            r == spec_alist_find(
                self.objects.mem(),
                crate::value::pair::spec_walk(self.objects.mem(), alist, self.objects.mem().len(), false),
                key,
                0,
            ),
    {
        if alist.0 == 0 {
            return None;
        }
        let entries = self.objects.list(alist);
        let mut i: usize = 0;
        while i < entries.len()
            invariant
                i <= entries@.len(),
                entries@ == crate::value::pair::spec_walk(self.objects.mem(), alist, self.objects.mem().len(), false),
                spec_alist_find(self.objects.mem(), entries@, key, 0) == spec_alist_find(
                    self.objects.mem(),
                    entries@,
                    key,
                    i as nat,
                ),
            decreases entries@.len() - i,
        {
            if self.objects.first(entries[i]).0 == key.0 {
                let v = self.objects.rest(entries[i]);
                proof {
                    assert(v == Obj(crate::objects::spec_data(self.objects.mem(), entries@[i as int], 1)));
                }
                return Some(v);
            }
            i = i + 1;
        }
        None
    }

    /// GENERIC-OPERATOR DISPATCH: offer a tower instruction to its operands'
    /// types. A type takes it over by filing a handler under the
    /// instruction's spelling in its ops family; see `spec_op_route` for
    /// which handler runs. None when neither type handles it, so the machine
    /// operation runs.
    pub fn op_try(&mut self, id: PrimId, a: Obj, b: Obj, fuel: u64) -> (r: Result<Option<Obj>, Cond>)
        requires
            old(self).wf(),
        ensures
            final(self).wf(),
            no_ops_in(&old(self).objects, a) && no_ops_in(&old(self).objects, b) ==> r == Ok::<Option<Obj>, Cond>(None)
                && *final(self) == *old(self),
        decreases fuel, 6u64,
    {
        let ta = self.objects.obj_type(a);
        let tb = self.objects.obj_type(b);
        let ops_a = if ta.0 == 0 {
            nil()
        } else {
            self.objects.type_handler(ta, Family::Ops)
        };
        let ops_b = if tb.0 == 0 {
            nil()
        } else {
            self.objects.type_handler(tb, Family::Ops)
        };
        if ops_a.0 == 0 && ops_b.0 == 0 {
            return Ok(None);
        }
        let sym = self.objects.sym(tower_spelling(id));
        let ha = self.alist_get(ops_a, sym);
        let hb = self.alist_get(ops_b, sym);
        let same = ta.0 == tb.0;
        let both = ha.is_some() && hb.is_some() && !same;
        let name_a = self.objects.handle_of_type(ta);
        let name_b = self.objects.handle_of_type(tb);
        let a_from_b = both && self.alist_get(self.objects.type_handler(ta, Family::From), name_b).is_some();
        let b_from_a = both && !a_from_b && self.alist_get(self.objects.type_handler(tb, Family::From), name_a).is_some();
        let is_eq = match id {
            PrimId::NumEq => true,
            _ => false,
        };
        match op_route(ha, hb, same, a_from_b, b_from_a, is_eq) {
            OpRoute::Machine => Ok(None),
            OpRoute::Unequal => Ok(Some(self.objects.false_obj())),
            OpRoute::Refuse => {
                let mut msg: Vec<u8> = Vec::new();
                msg.extend_from_slice(crate::vocabulary::MSG_NO_CVT_RELATION.as_bytes());
                let spelled = self.objects.bytes_of(name_b);
                msg.extend_from_slice(spelled.as_slice());
                let v = self.objects.str_from_bytes(msg.as_slice());
                Err(Cond::Raised(v))
            },
            OpRoute::Call(h) => {
                let env = self.root_env();
                let mut vals: Vec<Obj> = Vec::new();
                vals.push(a);
                vals.push(b);
                match self.call_with_values(h, vals, env, fuel) {
                    Ok(v) => Ok(Some(v)),
                    Err(c) => Err(c),
                }
            },
        }
    }
}

impl Objects {
    /// A character's code point, as an integer.
    pub fn char_to_int(&mut self, c: Obj) -> (r: Obj)
        requires
            old(self).wf(),
        ensures
            final(self).only_grew(*old(self)),
            final(self).built(
                *old(self),
                r,
                crate::objects::INT_BITS,
                0,
                seq![crate::obj::signed_word(((crate::objects::spec_data(old(self).mem(), c, 0) % 0x1_0000_0000) as u32) as i64)],
            ),
    {
        let v = self.as_char(c);
        let r = self.int_new(v as i64);
        r
    }

    /// An integer's low 32 bits, as a character.
    pub fn int_to_char(&mut self, i: Obj) -> (r: Obj)
        requires
            old(self).wf(),
        ensures
            final(self).only_grew(*old(self)),
            final(self).built(
                *old(self),
                r,
                crate::objects::CHAR_BITS,
                0,
                seq![(crate::obj::word_signed(crate::objects::spec_data(old(self).mem(), i, 0)) as u32) as u64],
            ),
    {
        let v = self.as_int(i);
        self.char_new(v as u32)
    }
}

} // verus!
