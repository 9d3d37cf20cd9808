//! Encoding of camera controls into MAVLink parameter fields.
use vstd::prelude::*;
use vstd::string::StringSliceAdditionalSpecFns;
use crate::controls::{control_current_value, value_of, Control};
use crate::text::{all_digits, digits_value, parse_u64_spec};

verus! {

/// Bytes of `src` copied into a zeroed array of `N` bytes, truncated so that
/// the last byte is always a NUL terminator.
pub fn from_string_to_sized_u8_array_with_null_terminator<const N: usize>(src: &str) -> (buf: [u8; N])
    requires
        N >= 1,
    ensures
        forall|i: int| 0 <= i < N ==> buf@[i] == (if i < src.spec_bytes().len() && i < N - 1 { src.spec_bytes()[i] } else { 0u8 }),
{
    let mut buf: [u8; N] = vstd::array::array_fill_for_copy_types(0u8);
    let bytes = src.as_bytes();
    let len = if bytes.len() < N - 1 { bytes.len() } else { N - 1 };
    let mut i: usize = 0;
    while i < len
        invariant
            len <= N - 1,
            len <= bytes@.len(),
            bytes@ == src.spec_bytes(),
            i <= len,
            forall|j: int| 0 <= j < N ==> buf@[j] == (if j < i { bytes@[j] } else { 0u8 }),
        decreases len - i,
    {
        buf[i] = bytes[i];
        i = i + 1;
    }
    buf
}

/// Byte `i` of the little-endian encoding of `value`.
pub open spec fn le_byte(value: i64, i: int) -> u8 {
    (((value as u64) >> ((8 * i) as u64)) & 0xff) as u8
}

/// The little-endian bytes of `control_value` in a zeroed array of `N`
/// bytes, truncated to `N`.
pub fn param_value_from_control_value<const N: usize>(control_value: i64) -> (buf: [u8; N])
    ensures
        forall|i: int| 0 <= i < N ==> buf@[i] == (if i < 8 { le_byte(control_value, i) } else { 0u8 }),
{
    let mut buf: [u8; N] = vstd::array::array_fill_for_copy_types(0u8);
    let len = if N < 8 { N } else { 8 };
    let bits = control_value as u64;
    let mut i: usize = 0;
    while i < len
        invariant
            len <= N,
            len <= 8,
            bits == control_value as u64,
            i <= len,
            forall|j: int| 0 <= j < N ==> buf@[j] == (if j < i { le_byte(control_value, j) } else { 0u8 }),
        decreases len - i,
    {
        buf[i] = ((bits >> ((8 * i) as u64)) & 0xff) as u8;
        i = i + 1;
    }
    buf
}

/// Decimal digits of `n`, most significant first, as ASCII bytes.
pub open spec fn decimal_bytes(n: nat) -> Seq<u8>
    decreases n,
{
    if n < 10 {
        seq![(48 + n) as u8]
    } else {
        decimal_bytes(n / 10).push((48 + n % 10) as u8)
    }
}

fn push_decimal(n: u64, out: &mut Vec<u8>)
    ensures
        final(out)@ == old(out)@ + decimal_bytes(n as nat),
    decreases n,
{
    if n >= 10 {
        push_decimal(n / 10, out);
    }
    out.push((48 + n % 10) as u8);
    proof {
        if n < 10 {
            assert(decimal_bytes(n as nat) == seq![(48 + n) as u8]);
        }
    }
}

/// The decimal text of `id` in a zeroed array of `N` bytes, truncated to `N`.
pub fn param_id_from_control_id<const N: usize>(id: u64) -> (buf: [u8; N])
    ensures
        forall|i: int| 0 <= i < N ==> buf@[i] == (if i < decimal_bytes(id as nat).len() {
            decimal_bytes(id as nat)[i]
        } else {
            0u8
        }),
{
    let mut digits: Vec<u8> = Vec::new();
    push_decimal(id, &mut digits);
    assert(digits@ =~= decimal_bytes(id as nat));
    let mut buf: [u8; N] = vstd::array::array_fill_for_copy_types(0u8);
    let len = if digits.len() < N { digits.len() } else { N };
    let mut i: usize = 0;
    while i < len
        invariant
            len <= N,
            len <= digits@.len(),
            digits@ == decimal_bytes(id as nat),
            i <= len,
            forall|j: int| 0 <= j < N ==> buf@[j] == (if j < i { digits@[j] } else { 0u8 }),
        decreases len - i,
    {
        buf[i] = digits[i];
        i = i + 1;
    }
    buf
}

/// Index one past the last byte of `b` that is not NUL (0 when all are).
pub open spec fn trimmed_len(b: Seq<u8>) -> int
    decreases b.len(),
{
    if b.len() == 0 {
        0
    } else if b.last() == 0 {
        trimmed_len(b.drop_last())
    } else {
        b.len() as int
    }
}

/// The control id a MAVLink parameter id names: its first eight bytes, with
/// trailing NULs removed, read as a decimal number; `None` when those bytes
/// are not ASCII or not a number.
pub open spec fn control_id_spec(param_id: Seq<u8>) -> Option<u64> {
    let b = param_id.take(8);
    if exists|i: int| 0 <= i < 8 && (#[trigger] b[i]) >= 0x80 {
        None
    } else {
        parse_u64_spec(b.take(trimmed_len(b)).map_values(|x: u8| x as char))
    }
}

proof fn lemma_trimmed_len(b: Seq<u8>, e: int)
    requires
        0 <= e <= b.len(),
        forall|k: int| e <= k < b.len() ==> b[k] == 0,
        e == 0 || b[e - 1] != 0,
    ensures
        trimmed_len(b) == e,
    decreases b.len(),
{
    if b.len() > 0 && e < b.len() {
        assert forall|k: int| e <= k < b.len() - 1 implies b.drop_last()[k] == 0 by {
            assert(b.drop_last()[k] == b[k]);
        }
        if e > 0 {
            assert(b.drop_last()[e - 1] == b[e - 1]);
        }
        lemma_trimmed_len(b.drop_last(), e);
    }
}

/// `10` to the power `k`.
pub open spec fn ten_pow(k: nat) -> nat
    decreases k,
{
    if k == 0 {
        1
    } else {
        10 * ten_pow((k - 1) as nat)
    }
}

/// The decimal text of `n` is made of ASCII digits, reads back as `n`, and
/// has at most `k` digits when `n < 10^k`.
proof fn lemma_decimal_bytes(n: nat, k: nat)
    ensures
        decimal_bytes(n).len() >= 1,
        forall|i: int| 0 <= i < decimal_bytes(n).len() ==> 48 <= #[trigger] decimal_bytes(n)[i] <= 57,
        digits_value(decimal_bytes(n).map_values(|x: u8| x as char)) == n,
        1 <= k && n < ten_pow(k) ==> decimal_bytes(n).len() <= k,
    decreases n,
{
    if n >= 10 {
        let q = n / 10;
        let c = (48 + n % 10) as u8;
        if k >= 1 {
            lemma_decimal_bytes(q, (k - 1) as nat);
        } else {
            lemma_decimal_bytes(q, 0);
        }
        let head = decimal_bytes(q);
        assert(decimal_bytes(n) == head.push(c));
        assert forall|i: int| 0 <= i < decimal_bytes(n).len() implies 48 <= #[trigger] decimal_bytes(n)[i] <= 57 by {
            if i < head.len() {
                assert(decimal_bytes(n)[i] == head[i]);
            }
        }
        let chars = decimal_bytes(n).map_values(|x: u8| x as char);
        assert(chars.drop_last() =~= head.map_values(|x: u8| x as char));
        assert(((chars.last() as u32) - ('0' as u32)) as nat == n % 10);
        assert(digits_value(chars) == digits_value(chars.drop_last()) * 10 + ((chars.last() as u32) - (
        '0' as u32)) as nat);
        assert(q * 10 + n % 10 == n);
        if 1 <= k && n < ten_pow(k) {
            assert(k >= 2) by {
                if k == 1 {
                    assert(ten_pow(1) == 10 * ten_pow(0));
                }
            }
            assert(ten_pow(k) == 10 * ten_pow((k - 1) as nat));
            assert(q < ten_pow((k - 1) as nat));
        }
    } else {
        let chars = decimal_bytes(n).map_values(|x: u8| x as char);
        assert(chars.drop_last() =~= Seq::<char>::empty());
        assert(((chars.last() as u32) - ('0' as u32)) as nat == n);
        assert(digits_value(chars.drop_last()) == 0);
        assert(digits_value(chars) == digits_value(chars.drop_last()) * 10 + ((chars.last() as u32) - (
        '0' as u32)) as nat);
    }
}

/// A control id of at most eight decimal digits survives the trip through
/// a MAVLink parameter id: its decimal text, written into a zeroed id of
/// eight bytes or more as [`param_id_from_control_id`] writes it, reads back
/// as the same id.
pub proof fn law_param_id_round_trip(id: u64, param_id: Seq<u8>)
    requires
        id < 100_000_000,
        param_id.len() >= 8,
        forall|i: int|
            0 <= i < param_id.len() ==> #[trigger] param_id[i] == (if i < decimal_bytes(id as nat).len() {
                decimal_bytes(id as nat)[i]
            } else {
                0u8
            }),
    ensures
        control_id_spec(param_id) == Some(id),
{
    let d = decimal_bytes(id as nat);
    assert(ten_pow(8) == 100_000_000) by {
        reveal_with_fuel(ten_pow, 9);
    }
    lemma_decimal_bytes(id as nat, 8);
    let b = param_id.take(8);
    let len = d.len() as int;
    assert forall|i: int| 0 <= i < 8 implies (#[trigger] b[i]) < 0x80 by {
        assert(b[i] == param_id[i]);
    }
    assert forall|k: int| len <= k < b.len() implies b[k] == 0 by {
        assert(b[k] == param_id[k]);
    }
    assert(b[len - 1] == param_id[len - 1]);
    lemma_trimmed_len(b, len);
    assert(b.take(len) =~= d) by {
        assert forall|k: int| 0 <= k < len implies #[trigger] b.take(len)[k] == d[k] by {
            assert(b[k] == param_id[k]);
        }
    }
    let chars = d.map_values(|x: u8| x as char);
    assert(chars.len() > 0);
    assert(chars[0] != '+') by {
        assert(48 <= d[0] <= 57);
    }
    assert(all_digits(chars)) by {
        assert forall|k: int| 0 <= k < chars.len() implies crate::text::is_digit(#[trigger] chars[k]) by {
            assert(48 <= d[k] <= 57);
        }
    }
}

proof fn lemma_ten_pow_positive(k: nat)
    ensures
        ten_pow(k) >= 1,
    decreases k,
{
    if k > 0 {
        lemma_ten_pow_positive((k - 1) as nat);
    }
}

/// A number of at most `k` digits is below `10^k`.
proof fn lemma_decimal_len_bounds(n: nat, k: nat)
    ensures
        decimal_bytes(n).len() <= k ==> n < ten_pow(k),
    decreases n,
{
    lemma_decimal_bytes(n, 0);
    if decimal_bytes(n).len() <= k {
        assert(k >= 1);
        lemma_ten_pow_positive((k - 1) as nat);
        assert(ten_pow(k) == 10 * ten_pow((k - 1) as nat));
        if n >= 10 {
            let q = n / 10;
            assert(decimal_bytes(n) == decimal_bytes(q).push((48 + n % 10) as u8));
            lemma_decimal_len_bounds(q, (k - 1) as nat);
            assert(q < ten_pow((k - 1) as nat));
            assert(n == 10 * q + n % 10);
        }
    }
}

/// Dropping the last `j` digits of `n` leaves the digits of `n / 10^j`.
proof fn lemma_decimal_prefix(n: nat, j: nat)
    requires
        j < decimal_bytes(n).len(),
    ensures
        decimal_bytes(n).take(decimal_bytes(n).len() - j) == decimal_bytes(n / ten_pow(j)),
    decreases j,
{
    let len = decimal_bytes(n).len();
    if j == 0 {
        assert(ten_pow(0) == 1);
        assert(decimal_bytes(n).take(len as int) =~= decimal_bytes(n));
    } else {
        let j1 = (j - 1) as nat;
        lemma_decimal_prefix(n, j1);
        lemma_ten_pow_positive(j1);
        let m = n / ten_pow(j1);
        assert(decimal_bytes(m).len() == len - j1);
        lemma_decimal_bytes(m / 10, 0);
        if m < 10 {
            assert(decimal_bytes(m).len() == 1);
        }
        assert(m >= 10);
        assert(decimal_bytes(m) == decimal_bytes(m / 10).push((48 + m % 10) as u8));
        assert(decimal_bytes(n).take(len - j) =~= decimal_bytes(n).take(len - j1).take(len - j));
        assert(decimal_bytes(m).take(len - j) =~= decimal_bytes(m / 10));
        vstd::arithmetic::div_mod::lemma_div_denominator(n as int, ten_pow(j1) as int, 10);
        assert(ten_pow(j) == 10 * ten_pow(j1));
        assert(ten_pow(j1) * 10 == ten_pow(j));
    }
}

/// A control id of more than eight decimal digits comes back from a
/// MAVLink parameter id as its first eight digits: the id divided by ten
/// for each digit that did not fit.
pub proof fn law_param_id_keeps_first_eight_digits(id: u64, param_id: Seq<u8>)
    requires
        id >= 100_000_000,
        param_id.len() >= 8,
        forall|i: int|
            0 <= i < param_id.len() ==> #[trigger] param_id[i] == (if i < decimal_bytes(id as nat).len() {
                decimal_bytes(id as nat)[i]
            } else {
                0u8
            }),
    ensures
        decimal_bytes(id as nat).len() > 8,
        control_id_spec(param_id) == Some(
            ((id as nat) / ten_pow((decimal_bytes(id as nat).len() - 8) as nat)) as u64,
        ),
        decimal_bytes((id as nat) / ten_pow((decimal_bytes(id as nat).len() - 8) as nat)) == decimal_bytes(
            id as nat,
        ).take(8),
{
    let d = decimal_bytes(id as nat);
    assert(ten_pow(8) == 100_000_000) by {
        reveal_with_fuel(ten_pow, 9);
    }
    lemma_decimal_len_bounds(id as nat, 8);
    let len = d.len() as int;
    assert(len > 8);
    let j = (len - 8) as nat;
    lemma_decimal_prefix(id as nat, j);
    lemma_ten_pow_positive(j);
    let m = (id as nat) / ten_pow(j);
    assert(m <= id) by (nonlinear_arith)
        requires
            m == (id as nat) / ten_pow(j),
            ten_pow(j) >= 1,
    ;
    lemma_decimal_bytes(m, 0);
    lemma_decimal_bytes(id as nat, 0);
    let b = param_id.take(8);
    assert(b =~= d.take(8)) by {
        assert forall|k: int| 0 <= k < 8 implies #[trigger] b[k] == d.take(8)[k] by {
            assert(b[k] == param_id[k]);
        }
    }
    assert forall|i: int| 0 <= i < 8 implies (#[trigger] b[i]) < 0x80 by {
        assert(b[i] == d[i]);
    }
    assert(b[7] == d[7]);
    lemma_trimmed_len(b, 8);
    assert(b.take(8) =~= b);
    let e = decimal_bytes(m);
    assert(e == d.take(8));
    let chars = e.map_values(|x: u8| x as char);
    assert(chars[0] != '+') by {
        assert(48 <= e[0] <= 57);
    }
    assert(all_digits(chars)) by {
        assert forall|k: int| 0 <= k < chars.len() implies crate::text::is_digit(#[trigger] chars[k]) by {
            assert(48 <= e[k] <= 57);
        }
    }
}

pub fn control_id_from_param_id<const N: usize>(param_id: &[u8; N]) -> (r: Option<u64>)
    requires
        N >= 8,
    ensures
        r == control_id_spec(param_id@),
{
    let ghost b = param_id@.take(8);
    let mut chars: Vec<char> = Vec::new();
    let mut i: usize = 0;
    while i < 8
        invariant
            N >= 8,
            i <= 8,
            b == param_id@.take(8),
            chars@ == b.take(i as int).map_values(|x: u8| x as char),
            forall|k: int| 0 <= k < i ==> (#[trigger] b[k]) < 0x80,
        decreases 8 - i,
    {
        let x = param_id[i];
        if x >= 0x80 {
            assert(b[i as int] == x);
            return None;
        }
        chars.push(x as char);
        proof {
            assert(b[i as int] == x);
            assert(b.take(i + 1).map_values(|x: u8| x as char) =~= b.take(i as int).map_values(
                |x: u8| x as char,
            ).push(x as char));
        }
        i = i + 1;
    }
    assert(b.take(8) =~= b);
    let mut e: usize = 8;
    while e > 0 && param_id[e - 1] == 0
        invariant
            N >= 8,
            e <= 8,
            b == param_id@.take(8),
            forall|k: int| e <= k < 8 ==> b[k] == 0,
        decreases e,
    {
        e = e - 1;
    }
    proof {
        lemma_trimmed_len(b, e as int);
        assert(chars@.subrange(0, e as int) =~= b.take(e as int).map_values(|x: u8| x as char));
    }
    crate::text::parse_u64_range(&chars, 0, e)
}

/// Value types of MAVLink extended parameters.
#[derive(Clone, Copy, Debug, PartialEq, Eq, Structural)]
pub enum ParamExtType {
    Uint8,
    Int8,
    Uint16,
    Int16,
    Uint32,
    Int32,
    Uint64,
    Int64,
    Real32,
    Real64,
    Custom,
}

/// Bytes needed to read a control value of `param_type` (0 when it cannot be read).
pub open spec fn param_width(param_type: ParamExtType) -> int {
    match param_type {
        ParamExtType::Uint8 => 1,
        ParamExtType::Int32 => 4,
        ParamExtType::Int64 => 8,
        _ => 0,
    }
}

/// Little-endian unsigned value of `b[0..n]`.
pub open spec fn le_value(b: Seq<u8>, n: int) -> int
    decreases n,
{
    if n <= 0 {
        0
    } else {
        le_value(b, n - 1) + b[n - 1] * pow256(n - 1)
    }
}

pub open spec fn pow256(k: int) -> int
    decreases k,
{
    if k <= 0 {
        1
    } else {
        256 * pow256(k - 1)
    }
}

/// The control value a parameter holds: an unsigned byte, or a signed 32-
/// or 64-bit little-endian integer; `None` for the other types.
pub open spec fn control_value_spec(param_value: Seq<u8>, param_type: ParamExtType) -> Option<i64> {
    match param_type {
        ParamExtType::Uint8 => Some(param_value[0] as i64),
        ParamExtType::Int32 => Some((le_value(param_value, 4) as u32) as i32 as i64),
        ParamExtType::Int64 => Some((le_value(param_value, 8) as u64) as i64),
        _ => None,
    }
}

fn read_le(b: &[u8], n: usize) -> (r: u64)
    requires
        n <= 8,
        n <= b@.len(),
    ensures
        r == le_value(b@, n as int),
{
    let mut value: u64 = 0;
    let mut scale: u64 = 1;
    let mut i: usize = 0;
    proof {
        lemma_pow256_monotone(0, 8);
    }
    while i < n
        invariant
            n <= 8,
            n <= b@.len(),
            i <= n,
            value == le_value(b@, i as int),
            i < 8 ==> scale == pow256(i as int),
            value < pow256(i as int),
            pow256(i as int) <= pow256(8),
        decreases n - i,
    {
        proof {
            assert(pow256(8) == 0x1_0000_0000_0000_0000) by {
                reveal_with_fuel(pow256, 9);
            }
            lemma_pow256_monotone(i + 1, 8);
            assert(value + b@[i as int] * pow256(i as int) < pow256(i + 1)) by (nonlinear_arith)
                requires
                    value < pow256(i as int),
                    b@[i as int] <= 255,
                    pow256(i + 1) == 256 * pow256(i as int),
            ;
        }
        value = value + (b[i] as u64) * scale;
        if i + 1 < 8 {
            proof {
                lemma_pow256_monotone(i + 1, 7);
                assert(pow256(7) == 0x100_0000_0000_0000) by {
                    reveal_with_fuel(pow256, 8);
                }
            }
            scale = scale * 256;
        }
        i = i + 1;
    }
    value
}

proof fn lemma_pow256_monotone(a: int, b: int)
    requires
        0 <= a <= b,
    ensures
        pow256(a) <= pow256(b),
        pow256(a) >= 1,
    decreases b,
{
    if a < b {
        lemma_pow256_monotone(a, b - 1);
    } else if a > 0 {
        lemma_pow256_monotone(a - 1, a - 1);
    }
}

pub fn control_value_from_param_value(param_value: &[u8], param_type: ParamExtType) -> (r: Option<i64>)
    requires
        param_value@.len() >= param_width(param_type),
    ensures
        r == control_value_spec(param_value@, param_type),
{
    match param_type {
        ParamExtType::Uint8 => Some(param_value[0] as i64),
        ParamExtType::Int32 => Some((read_le(param_value, 4) as u32) as i32 as i64),
        ParamExtType::Int64 => Some(read_le(param_value, 8) as i64),
        _ => None,
    }
}

/// The parameter index and control id that a parameter read request names:
/// with index -1, the control whose id the parameter id spells (its index
/// among `controls`); otherwise the control at that index.
pub open spec fn param_request_spec(param_index: i16, param_id: Seq<u8>, controls: Seq<Control>) -> Option<(u16, u64)> {
    if param_index == -1 {
        match control_id_spec(param_id) {
            None => None,
            Some(id) => if exists|i: int| 0 <= i < controls.len() && (#[trigger] controls[i]).id == id {
                let i = choose|i: int|
                    0 <= i < controls.len() && (#[trigger] controls[i]).id == id && forall|k: int|
                        0 <= k < i ==> (#[trigger] controls[k]).id != id;
                Some(((i as i16) as u16, id))
            } else {
                None
            },
        }
    } else if 0 <= param_index < controls.len() {
        Some((param_index as u16, controls[param_index as int].id))
    } else {
        None
    }
}

pub fn get_param_index_and_control_id(param_index: i16, param_id: &[u8; 16], controls: &[Control]) -> (r: Option<
    (u16, u64),
>)
    ensures
        r == param_request_spec(param_index, param_id@, controls@),
{
    if param_index == -1 {
        let control_id = match control_id_from_param_id(param_id) {
            Some(id) => id,
            None => return None,
        };
        let mut i: usize = 0;
        while i < controls.len()
            invariant
                param_index == -1,
                control_id_spec(param_id@) == Some(control_id),
                i <= controls@.len(),
                forall|k: int| 0 <= k < i ==> (#[trigger] controls@[k]).id != control_id,
            decreases controls@.len() - i,
        {
            if controls[i].id == control_id {
                proof {
                    assert(exists|m: int| 0 <= m < controls@.len() && (#[trigger] controls@[m]).id == control_id) by {
                        assert(controls@[i as int].id == control_id);
                    }
                    let j = choose|j: int|
                        0 <= j < controls@.len() && (#[trigger] controls@[j]).id == control_id
                            && forall|k: int| 0 <= k < j ==> (#[trigger] controls@[k]).id != control_id;
                    assert(j == i);
                }
                return Some(((i as i16) as u16, control_id));
            }
            i = i + 1;
        }
        None
    } else {
        if param_index >= 0 && (param_index as usize) < controls.len() {
            Some((param_index as u16, controls[param_index as usize].id))
        } else {
            None
        }
    }
}

/// One PARAM_EXT_VALUE answer: the parameter's place among `param_count`,
/// its id and its value, in the wire's fields.
pub struct ParamExtValue {
    pub param_count: u16,
    pub param_index: u16,
    pub param_id: [u8; 16],
    pub param_value: [u8; 128],
}

/// The answer for control `c` at `index` among `count` controls: the count
/// and the index as the wire's 16-bit fields, the id as decimal text, the
/// current value as little-endian bytes.
pub open spec fn param_ext_value_holds(v: ParamExtValue, count: nat, index: int, c: Control) -> bool {
    &&& v.param_count == count as u16
    &&& v.param_index == index as u16
    &&& forall|i: int| 0 <= i < 16 ==> v.param_id@[i] == (if i < decimal_bytes(c.id as nat).len() {
        decimal_bytes(c.id as nat)[i]
    } else {
        0u8
    })
    &&& forall|i: int| 0 <= i < 128 ==> v.param_value@[i] == (if i < 8 {
        le_byte(value_of(c.configuration), i)
    } else {
        0u8
    })
}

/// The answers to a request for every parameter: one per control, in order.
pub fn parameter_list(controls: &[Control]) -> (r: Vec<ParamExtValue>)
    ensures
        r@.len() == controls@.len(),
        forall|k: int| 0 <= k < r@.len() ==> param_ext_value_holds(#[trigger] r@[k], controls@.len(), k, controls@[k]),
{
    let n = controls.len();
    let count = n as u16;
    let mut out: Vec<ParamExtValue> = Vec::new();
    let mut k: usize = 0;
    while k < n
        invariant
            n == controls@.len(),
            count == n as u16,
            k <= n,
            out@.len() == k,
            forall|j: int| 0 <= j < k ==> param_ext_value_holds(#[trigger] out@[j], n as nat, j, controls@[j]),
        decreases n - k,
    {
        let c = &controls[k];
        let value = control_current_value(&c.configuration);
        let v = ParamExtValue {
            param_count: count,
            param_index: k as u16,
            param_id: param_id_from_control_id::<16>(c.id),
            param_value: param_value_from_control_value::<128>(value),
        };
        out.push(v);
        k = k + 1;
    }
    out
}

} // verus!
