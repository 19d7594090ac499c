//! Send-table schema and the decoder of one property value.
//!
//! Floating-point values are kept exactly as they travel: the IEEE-754 bit
//! pattern, a coordinate in 1/32 units, or the raw fixed-point step, so that
//! decoding is bit-exact and free of rounding.
use vstd::prelude::*;
use crate::bits::{
    bytes_bits, lemma_take_uint_round_trip, read_bool, read_failure,
    read_uint, stream_bits, take_uint, uint_bits, ParseError, Stream,
};

verus! {

/// Kind of a send prop.
#[derive(Debug, Clone, Copy, PartialEq, Eq, Structural)]
pub enum SendPropKind {
    Int,
    Float,
    Vector,
    VectorXY,
    String,
    Array,
    DataTable,
}

/// Integer props: read without sign extension.
pub const FLAG_UNSIGNED: u32 = 1;
/// Float props: Source coordinate encoding.
pub const FLAG_COORD: u32 = 2;
/// Float props: raw 32-bit IEEE-754.
pub const FLAG_NO_SCALE: u32 = 4;
/// Float props: sign bit and magnitude of a value in [-1, 1].
pub const FLAG_NORMAL: u32 = 32;

/// Whether `flags` holds the flag `f`.
pub open spec fn has_flag(flags: u32, f: u32) -> bool {
    flags & f != 0
}

/// One entry of a flattened send table. `low_value` and `high_value` are the
/// IEEE-754 bit patterns of the float bounds.
#[derive(Debug, PartialEq)]
pub struct SendPropDefinition {
    pub owner_table: String,
    pub name: String,
    pub kind: SendPropKind,
    pub flags: u32,
    pub bit_count: u32,
    pub low_value: u32,
    pub high_value: u32,
    pub element_count: u32,
    pub array_element: Option<Box<SendPropDefinition>>,
}

/// A float as it was sent.
#[derive(Debug, Clone, Copy, PartialEq, Eq, Structural)]
pub enum FloatValue {
    /// IEEE-754 bit pattern, sent unscaled.
    Bits(u32),
    /// A coordinate, in units of 1/32.
    Coord(i32),
    /// A value in [-1, 1]: its sign and `bit_count`-bit magnitude.
    Normal { negative: bool, magnitude: u32 },
    /// A `bit_count`-bit step from the low value to the high value.
    Scaled(u32),
    /// A unit-vector component given by its sign alone; its magnitude follows
    /// from the other two components.
    UnitSign { negative: bool },
}

/// A decoded prop value.
#[derive(Debug, PartialEq)]
pub enum SendPropValue {
    Integer(i64),
    Float(FloatValue),
    Vector(FloatValue, FloatValue, FloatValue),
    VectorXY(FloatValue, FloatValue),
    String(Vec<u8>),
    Array(Vec<SendPropValue>),
}

/// A prop of an entity. Its definition is identified by its index in the
/// flattened props of the entity's send table: two props share a definition
/// exactly when they share that index.
#[derive(Debug, PartialEq)]
pub struct SendProp {
    pub index: usize,
    pub value: SendPropValue,
}

/// The flattened schema of one server class.
#[derive(Debug, PartialEq)]
pub struct SendTable {
    pub name: String,
    pub flattened_props: Vec<SendPropDefinition>,
}

/// Value of `n` bits read as two's complement.
pub open spec fn sign_extend(v: nat, n: nat) -> int {
    if n > 0 && v >= vstd::arithmetic::power2::pow2((n - 1) as nat) {
        v - vstd::arithmetic::power2::pow2(n)
    } else {
        v as int
    }
}

/// Decoding of an integer prop.
pub open spec fn take_int(b: Seq<bool>, flags: u32, bit_count: u32) -> Option<(int, Seq<bool>)> {
    match take_uint(b, bit_count as nat) {
        Some((v, rest)) => Some(
            (if has_flag(flags, FLAG_UNSIGNED) { v as int } else { sign_extend(v, bit_count as nat) }, rest),
        ),
        None => None,
    }
}

/// Decoding of a Source coordinate: presence bits for the integer and the
/// fraction part, a sign bit if either is present, then a 14-bit integer part
/// (stored minus one) and a 5-bit fraction.
pub open spec fn take_coord(b: Seq<bool>) -> Option<(int, Seq<bool>)> {
    if b.len() < 2 {
        None
    } else if !b[0] && !b[1] {
        Some((0, b.skip(2)))
    } else if b.len() < 3 {
        None
    } else {
        let has_int = b[0];
        let has_frac = b[1];
        let negative = b[2];
        let r0 = b.skip(3);
        let int_part = if has_int { take_uint(r0, 14) } else { Some((0nat, r0)) };
        match int_part {
            Some((i, r1)) => {
                let frac_part = if has_frac { take_uint(r1, 5) } else { Some((0nat, r1)) };
                match frac_part {
                    Some((f, r2)) => {
                        let units = (if has_int { i + 1 } else { 0 }) * 32 + f;
                        Some((if negative { -units } else { units as int }, r2))
                    },
                    None => None,
                }
            },
            None => None,
        }
    }
}

/// Decoding of a float prop.
pub open spec fn take_float(b: Seq<bool>, flags: u32, bit_count: u32) -> Option<
    (FloatValue, Seq<bool>),
> {
    if has_flag(flags, FLAG_COORD) {
        match take_coord(b) {
            Some((c, rest)) => Some((FloatValue::Coord(c as i32), rest)),
            None => None,
        }
    } else if has_flag(flags, FLAG_NO_SCALE) {
        match take_uint(b, 32) {
            Some((v, rest)) => Some((FloatValue::Bits(v as u32), rest)),
            None => None,
        }
    } else if has_flag(flags, FLAG_NORMAL) {
        if b.len() == 0 {
            None
        } else {
            match take_uint(b.skip(1), bit_count as nat) {
                Some((v, rest)) => Some(
                    (FloatValue::Normal { negative: b[0], magnitude: v as u32 }, rest),
                ),
                None => None,
            }
        }
    } else {
        match take_uint(b, bit_count as nat) {
            Some((v, rest)) => Some((FloatValue::Scaled(v as u32), rest)),
            None => None,
        }
    }
}

/// Reads `2^n` for `n <= 63`.
fn pow2_u64(n: u32) -> (r: u64)
    requires
        n <= 63,
    ensures
        r == vstd::arithmetic::power2::pow2(n as nat),
{
    let mut p: u64 = 1;
    let mut i: u32 = 0;
    proof {
        vstd::arithmetic::power2::lemma2_to64();
    }
    while i < n
        invariant
            i <= n <= 63,
            p == vstd::arithmetic::power2::pow2(i as nat),
        decreases n - i,
    {
        proof {
            vstd::arithmetic::power2::lemma_pow2_unfold((i + 1) as nat);
            vstd::arithmetic::power2::lemma_pow2_strictly_increases((i + 1) as nat, 64);
            vstd::arithmetic::power2::lemma2_to64_rest();
        }
        p = p * 2;
        i = i + 1;
    }
    p
}

/// Reads an integer prop of at most 32 bits, sign-extended unless unsigned.
pub fn read_int_prop(s: &mut Stream, flags: u32, bit_count: u32) -> (r: Result<i64, ParseError>)
    ensures
        stream_bits(*final(s)).len() <= stream_bits(*old(s)).len(),
        bit_count > 32 ==> r == Err::<i64, ParseError>(ParseError::InvalidEncoding),
        bit_count <= 32 ==> match take_int(stream_bits(*old(s)), flags, bit_count) {
            Some((v, rest)) => r == Ok::<i64, ParseError>(v as i64) && v == (v as i64) as int
                && stream_bits(*final(s)) == rest,
            None => r == Err::<i64, ParseError>(ParseError::NotEnoughData),
        },
{
    if bit_count > 32 {
        return Err(ParseError::InvalidEncoding);
    }
    let v = match read_uint(s, bit_count as usize) {
        Ok(v) => v,
        Err(e) => return Err(read_failure(e)),
    };
    proof {
        crate::bits::lemma_bits_value_bound(stream_bits(*old(s)).take(bit_count as int));
        vstd::arithmetic::power2::lemma_pow2_strictly_increases(bit_count as nat, 64);
        vstd::arithmetic::power2::lemma2_to64_rest();
    }
    if flags & FLAG_UNSIGNED != 0 || bit_count == 0 {
        Ok(v as i64)
    } else {
        let half = pow2_u64(bit_count - 1);
        let full = pow2_u64(bit_count);
        proof {
            vstd::arithmetic::power2::lemma_pow2_unfold(bit_count as nat);
        }
        if v as u64 >= half {
            Ok(v as i64 - full as i64)
        } else {
            Ok(v as i64)
        }
    }
}

} // verus!

verus! {

/// `ceil(log2(n))`, taken as 0 for `n <= 1`.
pub open spec fn ceil_log2(n: nat) -> nat
    decreases n,
{
    if n <= 1 {
        0
    } else {
        1 + ceil_log2(((n + 1) / 2) as nat)
    }
}

/// Number of bits of a count or index below `n`: `ceil(log2(n)) + 1`.
pub fn count_bits(n: u64) -> (r: u64)
    ensures
        r == ceil_log2(n as nat) + 1,
{
    let mut m: u64 = n;
    let mut k: u64 = 0;
    while m > 1
        invariant
            ceil_log2(n as nat) == k + ceil_log2(m as nat),
            k + m <= n,
            n > 0 ==> m > 0,
        decreases m,
    {
        m = m / 2 + m % 2;
        k = k + 1;
    }
    k + 1
}

/// `n` bytes, eight bits each.
pub open spec fn take_bytes(b: Seq<bool>, n: nat) -> Option<(Seq<u8>, Seq<bool>)>
    decreases n,
{
    if n == 0 {
        Some((Seq::empty(), b))
    } else {
        match take_uint(b, 8) {
            Some((x, r)) => match take_bytes(r, (n - 1) as nat) {
                Some((xs, r2)) => Some((seq![x as u8] + xs, r2)),
                None => None,
            },
            None => None,
        }
    }
}

/// Reads a Source coordinate, in units of 1/32.
pub fn read_coord(s: &mut Stream) -> (r: Result<i32, ParseError>)
    ensures
        stream_bits(*final(s)).len() <= stream_bits(*old(s)).len(),
        match take_coord(stream_bits(*old(s))) {
            Some((c, rest)) => r == Ok::<i32, ParseError>(c as i32) && c == c as i32
                && stream_bits(*final(s)) == rest,
            None => r == Err::<i32, ParseError>(ParseError::NotEnoughData),
        },
{
    let ghost b = stream_bits(*s);
    let has_int = match read_bool(s) {
        Ok(v) => v,
        Err(e) => return Err(read_failure(e)),
    };
    let has_frac = match read_bool(s) {
        Ok(v) => v,
        Err(e) => return Err(read_failure(e)),
    };
    assert(b.skip(1).skip(1) =~= b.skip(2));
    if !has_int && !has_frac {
        return Ok(0);
    }
    let negative = match read_bool(s) {
        Ok(v) => v,
        Err(e) => return Err(read_failure(e)),
    };
    assert(b.skip(2).skip(1) =~= b.skip(3));
    let ghost r0 = stream_bits(*s);
    let mut int_part: u32 = 0;
    if has_int {
        int_part = match read_uint(s, 14) {
            Ok(v) => v,
            Err(e) => return Err(read_failure(e)),
        };
        proof {
            crate::bits::lemma_bits_value_bound(r0.take(14));
            vstd::arithmetic::power2::lemma2_to64();
        }
        int_part = int_part + 1;
    }
    let ghost r1 = stream_bits(*s);
    let mut frac: u32 = 0;
    if has_frac {
        frac = match read_uint(s, 5) {
            Ok(v) => v,
            Err(e) => return Err(read_failure(e)),
        };
        proof {
            crate::bits::lemma_bits_value_bound(r1.take(5));
            vstd::arithmetic::power2::lemma2_to64();
        }
    }
    let units: i32 = (int_part * 32 + frac) as i32;
    if negative {
        Ok(-units)
    } else {
        Ok(units)
    }
}

/// Whether a scalar definition's bit count can be read (at most 32 bits).
pub open spec fn width_ok(bit_count: u32) -> bool {
    bit_count <= 32
}

/// Reads a float prop, as sent.
pub fn read_float_prop(s: &mut Stream, flags: u32, bit_count: u32) -> (r: Result<
    FloatValue,
    ParseError,
>)
    ensures
        stream_bits(*final(s)).len() <= stream_bits(*old(s)).len(),
        !width_ok(bit_count) ==> r == Err::<FloatValue, ParseError>(ParseError::InvalidEncoding),
        width_ok(bit_count) ==> match take_float(stream_bits(*old(s)), flags, bit_count) {
            Some((v, rest)) => r == Ok::<FloatValue, ParseError>(v) && stream_bits(*final(s))
                == rest,
            None => r == Err::<FloatValue, ParseError>(ParseError::NotEnoughData),
        },
{
    if bit_count > 32 {
        return Err(ParseError::InvalidEncoding);
    }
    if flags & FLAG_COORD != 0 {
        match read_coord(s) {
            Ok(c) => Ok(FloatValue::Coord(c)),
            Err(e) => Err(e),
        }
    } else if flags & FLAG_NO_SCALE != 0 {
        match read_uint(s, 32) {
            Ok(v) => Ok(FloatValue::Bits(v)),
            Err(e) => Err(read_failure(e)),
        }
    } else if flags & FLAG_NORMAL != 0 {
        let negative = match read_bool(s) {
            Ok(v) => v,
            Err(e) => return Err(read_failure(e)),
        };
        match read_uint(s, bit_count as usize) {
            Ok(v) => Ok(FloatValue::Normal { negative, magnitude: v }),
            Err(e) => Err(read_failure(e)),
        }
    } else {
        match read_uint(s, bit_count as usize) {
            Ok(v) => Ok(FloatValue::Scaled(v)),
            Err(e) => Err(read_failure(e)),
        }
    }
}

/// Reads `n` whole bytes.
pub fn read_byte_string(s: &mut Stream, n: u32) -> (r: Result<Vec<u8>, ParseError>)
    ensures
        stream_bits(*final(s)).len() <= stream_bits(*old(s)).len(),
        match take_bytes(stream_bits(*old(s)), n as nat) {
            Some((bytes, rest)) => r is Ok && r->Ok_0@ == bytes && stream_bits(*final(s)) == rest,
            None => r == Err::<Vec<u8>, ParseError>(ParseError::NotEnoughData),
        },
{
    let mut out: Vec<u8> = Vec::new();
    let mut i: u32 = 0;
    while i < n
        invariant
            i <= n,
            stream_bits(*s).len() <= stream_bits(*old(s)).len(),
            take_bytes(stream_bits(*old(s)), n as nat) == match take_bytes(
                stream_bits(*s),
                (n - i) as nat,
            ) {
                Some((xs, r)) => Some((out@ + xs, r)),
                None => None::<(Seq<u8>, Seq<bool>)>,
            },
        decreases n - i,
    {
        let ghost before = stream_bits(*s);
        let ghost old_out = out@;
        let x = match read_uint(s, 8) {
            Ok(v) => v,
            Err(e) => return Err(read_failure(e)),
        };
        proof {
            crate::bits::lemma_bits_value_bound(before.take(8));
            vstd::arithmetic::power2::lemma2_to64();
        }
        out.push(x as u8);
        proof {
            match take_bytes(stream_bits(*s), (n - i - 1) as nat) {
                Some((xs, r)) => {
                    assert(old_out + (seq![x as u8] + xs) =~= out@ + xs);
                },
                None => {},
            }
        }
        i = i + 1;
    }
    proof {
        assert(out@ + Seq::<u8>::empty() =~= out@);
    }
    Ok(out)
}

/// Decoding of a vector prop: x and y as floats; the z component as a float
/// when the `Normal` flag is set, and otherwise as a sign bit alone.
pub open spec fn take_vector(b: Seq<bool>, flags: u32, bit_count: u32) -> Option<
    (SendPropValue, Seq<bool>),
> {
    match take_float(b, flags, bit_count) {
        Some((x, r1)) => match take_float(r1, flags, bit_count) {
            Some((y, r2)) => if !has_flag(flags, FLAG_NORMAL) {
                if r2.len() == 0 {
                    None
                } else {
                    Some(
                        (
                            SendPropValue::Vector(x, y, FloatValue::UnitSign { negative: r2[0] }),
                            r2.skip(1),
                        ),
                    )
                }
            } else {
                match take_float(r2, flags, bit_count) {
                    Some((z, r3)) => Some((SendPropValue::Vector(x, y, z), r3)),
                    None => None,
                }
            },
            None => None,
        },
        None => None,
    }
}

/// Decoding of a two-component vector prop.
pub open spec fn take_vector_xy(b: Seq<bool>, flags: u32, bit_count: u32) -> Option<
    (SendPropValue, Seq<bool>),
> {
    match take_float(b, flags, bit_count) {
        Some((x, r1)) => match take_float(r1, flags, bit_count) {
            Some((y, r2)) => Some((SendPropValue::VectorXY(x, y), r2)),
            None => None,
        },
        None => None,
    }
}

/// Decoding of a string prop: a 9-bit byte count, then the bytes.
pub open spec fn take_string_prop(b: Seq<bool>) -> Option<(Seq<u8>, Seq<bool>)> {
    match take_uint(b, 9) {
        Some((n, r)) => take_bytes(r, n),
        None => None,
    }
}

/// What a non-array prop value stands for; `Other` for an array.
pub enum ScalarModel {
    Integer(int),
    Float(FloatValue),
    Vector(FloatValue, FloatValue, FloatValue),
    VectorXY(FloatValue, FloatValue),
    String(Seq<u8>),
    Other,
}

/// What a prop value stands for: a scalar, or an array of scalars.
pub enum ValueModel {
    Scalar(ScalarModel),
    Array(Seq<ScalarModel>),
}

/// The model of a non-array value.
pub open spec fn scalar_model(v: SendPropValue) -> ScalarModel {
    match v {
        SendPropValue::Integer(i) => ScalarModel::Integer(i as int),
        SendPropValue::Float(f) => ScalarModel::Float(f),
        SendPropValue::Vector(x, y, z) => ScalarModel::Vector(x, y, z),
        SendPropValue::VectorXY(x, y) => ScalarModel::VectorXY(x, y),
        SendPropValue::String(b) => ScalarModel::String(b@),
        SendPropValue::Array(_) => ScalarModel::Other,
    }
}

/// The models of a list of non-array values.
pub open spec fn scalar_models(items: Seq<SendPropValue>) -> Seq<ScalarModel> {
    items.map_values(|x: SendPropValue| scalar_model(x))
}

/// The model of a value.
pub open spec fn model_of(v: SendPropValue) -> ValueModel {
    match v {
        SendPropValue::Array(items) => ValueModel::Array(scalar_models(items@)),
        _ => ValueModel::Scalar(scalar_model(v)),
    }
}

/// Decoding of a non-array value of `def`. An array definition here (an
/// array of arrays) and a data-table prop are not valid encodings, nor is a
/// scalar of more than 32 bits.
pub open spec fn take_scalar(def: SendPropDefinition, b: Seq<bool>) -> Result<
    (ScalarModel, Seq<bool>),
    ParseError,
> {
    match def.kind {
        SendPropKind::Int => if !width_ok(def.bit_count) {
            Err(ParseError::InvalidEncoding)
        } else {
            match take_int(b, def.flags, def.bit_count) {
                Some((v, rest)) => Ok((ScalarModel::Integer(v), rest)),
                None => Err(ParseError::NotEnoughData),
            }
        },
        SendPropKind::Float => if !width_ok(def.bit_count) {
            Err(ParseError::InvalidEncoding)
        } else {
            match take_float(b, def.flags, def.bit_count) {
                Some((v, rest)) => Ok((ScalarModel::Float(v), rest)),
                None => Err(ParseError::NotEnoughData),
            }
        },
        SendPropKind::Vector => if !width_ok(def.bit_count) {
            Err(ParseError::InvalidEncoding)
        } else {
            match take_vector(b, def.flags, def.bit_count) {
                Some((v, rest)) => Ok((scalar_model(v), rest)),
                None => Err(ParseError::NotEnoughData),
            }
        },
        SendPropKind::VectorXY => if !width_ok(def.bit_count) {
            Err(ParseError::InvalidEncoding)
        } else {
            match take_vector_xy(b, def.flags, def.bit_count) {
                Some((v, rest)) => Ok((scalar_model(v), rest)),
                None => Err(ParseError::NotEnoughData),
            }
        },
        SendPropKind::String => match take_string_prop(b) {
            Some((bytes, rest)) => Ok((ScalarModel::String(bytes), rest)),
            None => Err(ParseError::NotEnoughData),
        },
        _ => Err(ParseError::InvalidEncoding),
    }
}

/// Decoding of `n` array elements of `def`, one after another.
pub open spec fn take_elements(def: SendPropDefinition, b: Seq<bool>, n: nat) -> Result<
    (Seq<ScalarModel>, Seq<bool>),
    ParseError,
>
    decreases n,
{
    if n == 0 {
        Ok((Seq::empty(), b))
    } else {
        match take_scalar(def, b) {
            Ok((x, r)) => match take_elements(def, r, (n - 1) as nat) {
                Ok((xs, r2)) => Ok((seq![x] + xs, r2)),
                Err(e) => Err(e),
            },
            Err(e) => Err(e),
        }
    }
}

/// Prefixes the models decoded so far to what the rest decodes to.
pub open spec fn after_elements(
    done: Seq<ScalarModel>,
    rest: Result<(Seq<ScalarModel>, Seq<bool>), ParseError>,
) -> Result<(Seq<ScalarModel>, Seq<bool>), ParseError> {
    match rest {
        Ok((xs, r)) => Ok((done + xs, r)),
        Err(e) => Err(e),
    }
}

/// Decoding of a prop value of `def`. An array has a count of
/// `ceil(log2(element_count)) + 1` bits (at most 32), then that many
/// elements of its element definition, which must be present.
pub open spec fn take_value(def: SendPropDefinition, b: Seq<bool>) -> Result<
    (ValueModel, Seq<bool>),
    ParseError,
> {
    if def.kind == SendPropKind::Array {
        match def.array_element {
            None => Err(ParseError::InvalidEncoding),
            Some(element) => if ceil_log2(def.element_count as nat) + 1 > 32 {
                Err(ParseError::InvalidEncoding)
            } else {
                match take_uint(b, ceil_log2(def.element_count as nat) + 1) {
                    None => Err(ParseError::NotEnoughData),
                    Some((count, r)) => match take_elements(*element, r, count) {
                        Ok((xs, r2)) => Ok((ValueModel::Array(xs), r2)),
                        Err(e) => Err(e),
                    },
                }
            },
        }
    } else {
        match take_scalar(def, b) {
            Ok((x, r)) => Ok((ValueModel::Scalar(x), r)),
            Err(e) => Err(e),
        }
    }
}

impl SendPropValue {
    /// A copy of the value, equal to it in every element.
    pub fn copy(&self) -> (r: SendPropValue)
        ensures
            model_of(r) == model_of(*self),
    {
        match self {
            SendPropValue::Array(items) => {
                let mut out: Vec<SendPropValue> = Vec::new();
                let mut i: usize = 0;
                while i < items.len()
                    invariant
                        i <= items@.len(),
                        out@.len() == i,
                        scalar_models(out@) == scalar_models(items@).take(i as int),
                    decreases items@.len() - i,
                {
                    let x = items[i].copy_scalar();
                    let ghost before = out@;
                    out.push(x);
                    assert(out@ == before.push(x));
                    assert forall|k: int| 0 <= k < i + 1 implies #[trigger] scalar_models(out@)[k]
                        == scalar_models(items@).take(i + 1)[k] by {
                        if k < i {
                            assert(out@[k] == before[k]);
                            assert(scalar_models(before)[k] == scalar_models(items@).take(i as int)[k]);
                        }
                    }
                    assert(scalar_models(out@) =~= scalar_models(items@).take(i + 1));
                    i = i + 1;
                }
                assert(scalar_models(items@).take(i as int) =~= scalar_models(items@));
                SendPropValue::Array(out)
            },
            _ => self.copy_scalar(),
        }
    }

    /// A copy of a non-array value; an array gives an empty array.
    fn copy_scalar(&self) -> (r: SendPropValue)
        ensures
            scalar_model(r) == scalar_model(*self),
            !(*self is Array) ==> !(r is Array),
    {
        match self {
            SendPropValue::Integer(v) => SendPropValue::Integer(*v),
            SendPropValue::Float(f) => SendPropValue::Float(*f),
            SendPropValue::Vector(x, y, z) => SendPropValue::Vector(*x, *y, *z),
            SendPropValue::VectorXY(x, y) => SendPropValue::VectorXY(*x, *y),
            SendPropValue::String(bytes) => {
                let mut out: Vec<u8> = Vec::new();
                let mut i: usize = 0;
                while i < bytes.len()
                    invariant
                        i <= bytes@.len(),
                        out@ == bytes@.take(i as int),
                    decreases bytes@.len() - i,
                {
                    out.push(bytes[i]);
                    assert(out@ =~= bytes@.take(i as int + 1));
                    i = i + 1;
                }
                assert(out@ =~= bytes@);
                SendPropValue::String(out)
            },
            SendPropValue::Array(_) => SendPropValue::Array(Vec::new()),
        }
    }

    /// Decodes one non-array value of the given definition.
    fn parse_scalar(s: &mut Stream, def: &SendPropDefinition) -> (r: Result<SendPropValue, ParseError>)
        ensures
            stream_bits(*final(s)).len() <= stream_bits(*old(s)).len(),
            match take_scalar(*def, stream_bits(*old(s))) {
                Ok((m, rest)) => r is Ok && !(r->Ok_0 is Array) && scalar_model(r->Ok_0) == m
                    && stream_bits(*final(s)) == rest,
                Err(e) => r == Err::<SendPropValue, ParseError>(e),
            },
    {
        match def.kind {
            SendPropKind::Int => match read_int_prop(s, def.flags, def.bit_count) {
                Ok(v) => Ok(SendPropValue::Integer(v)),
                Err(e) => Err(e),
            },
            SendPropKind::Float => match read_float_prop(s, def.flags, def.bit_count) {
                Ok(v) => Ok(SendPropValue::Float(v)),
                Err(e) => Err(e),
            },
            SendPropKind::Vector => {
                if def.bit_count > 32 {
                    return Err(ParseError::InvalidEncoding);
                }
                let x = match read_float_prop(s, def.flags, def.bit_count) {
                    Ok(v) => v,
                    Err(e) => return Err(e),
                };
                let y = match read_float_prop(s, def.flags, def.bit_count) {
                    Ok(v) => v,
                    Err(e) => return Err(e),
                };
                if def.flags & FLAG_NORMAL == 0 {
                    match read_bool(s) {
                        Ok(negative) => Ok(
                            SendPropValue::Vector(x, y, FloatValue::UnitSign { negative }),
                        ),
                        Err(e) => Err(read_failure(e)),
                    }
                } else {
                    match read_float_prop(s, def.flags, def.bit_count) {
                        Ok(z) => Ok(SendPropValue::Vector(x, y, z)),
                        Err(e) => Err(e),
                    }
                }
            },
            SendPropKind::VectorXY => {
                if def.bit_count > 32 {
                    return Err(ParseError::InvalidEncoding);
                }
                let x = match read_float_prop(s, def.flags, def.bit_count) {
                    Ok(v) => v,
                    Err(e) => return Err(e),
                };
                match read_float_prop(s, def.flags, def.bit_count) {
                    Ok(y) => Ok(SendPropValue::VectorXY(x, y)),
                    Err(e) => Err(e),
                }
            },
            SendPropKind::String => {
                let n = match read_uint(s, 9) {
                    Ok(v) => v,
                    Err(e) => return Err(read_failure(e)),
                };
                match read_byte_string(s, n) {
                    Ok(bytes) => Ok(SendPropValue::String(bytes)),
                    Err(e) => Err(e),
                }
            },
            _ => Err(ParseError::InvalidEncoding),
        }
    }

    /// Decodes one value of the given definition.
    pub fn parse(s: &mut Stream, def: &SendPropDefinition) -> (r: Result<SendPropValue, ParseError>)
        ensures
            stream_bits(*final(s)).len() <= stream_bits(*old(s)).len(),
            match take_value(*def, stream_bits(*old(s))) {
                Ok((m, rest)) => r is Ok && model_of(r->Ok_0) == m && stream_bits(*final(s))
                    == rest,
                Err(e) => r == Err::<SendPropValue, ParseError>(e),
            },
    {
        if def.kind != SendPropKind::Array {
            return match Self::parse_scalar(s, def) {
                Ok(v) => Ok(v),
                Err(e) => Err(e),
            };
        }
        let element = match &def.array_element {
            Some(e) => e,
            None => return Err(ParseError::InvalidEncoding),
        };
        let bits = count_bits(def.element_count as u64);
        if bits > 32 {
            return Err(ParseError::InvalidEncoding);
        }
        let count = match read_uint(s, bits as usize) {
            Ok(v) => v,
            Err(e) => return Err(read_failure(e)),
        };
        let ghost r0 = stream_bits(*s);
        let mut items: Vec<SendPropValue> = Vec::new();
        let mut i: u32 = 0;
        proof {
            assert(scalar_models(items@) + Seq::<ScalarModel>::empty() =~= Seq::<ScalarModel>::empty());
            assert(after_elements(Seq::empty(), take_elements(**element, r0, count as nat))
                == take_elements(**element, r0, count as nat)) by {
                match take_elements(**element, r0, count as nat) {
                    Ok((xs, r)) => {
                        assert(Seq::<ScalarModel>::empty() + xs =~= xs);
                    },
                    Err(_) => {},
                }
            }
        }
        while i < count
            invariant
                i <= count,
                stream_bits(*s).len() <= stream_bits(*old(s)).len(),
                def.kind == SendPropKind::Array,
                def.array_element == Some(*element),
                take_value(*def, stream_bits(*old(s))) == match take_elements(
                    **element,
                    r0,
                    count as nat,
                ) {
                    Ok((xs, r2)) => Ok((ValueModel::Array(xs), r2)),
                    Err(e) => Err(e),
                },
                take_elements(**element, r0, count as nat) == after_elements(
                    scalar_models(items@),
                    take_elements(**element, stream_bits(*s), (count - i) as nat),
                ),
            decreases count - i,
        {
            let ghost before = stream_bits(*s);
            let ghost done = scalar_models(items@);
            let item = match Self::parse_scalar(s, element) {
                Ok(v) => v,
                Err(e) => return Err(e),
            };
            items.push(item);
            proof {
                assert(scalar_models(items@) =~= done.push(scalar_model(item)));
                match take_elements(**element, stream_bits(*s), (count - i - 1) as nat) {
                    Ok((xs, r)) => {
                        assert(done + (seq![scalar_model(item)] + xs) =~= scalar_models(items@) + xs);
                    },
                    Err(_) => {},
                }
            }
            i = i + 1;
        }
        proof {
            assert(scalar_models(items@) + Seq::<ScalarModel>::empty() =~= scalar_models(items@));
        }
        Ok(SendPropValue::Array(items))
    }
}

/// The wire bits of an integer prop of `n` bits: two's complement for a
/// negative value.
pub open spec fn int_prop_bits(v: int, n: u32) -> Seq<bool> {
    if v < 0 {
        uint_bits((v + vstd::arithmetic::power2::pow2(n as nat)) as nat, n as nat)
    } else {
        uint_bits(v as nat, n as nat)
    }
}

/// An integer that fits its prop's width (unsigned, or two's complement)
/// comes back from its wire bits, with the stream after it untouched.
pub proof fn lemma_int_prop_round_trip(v: int, flags: u32, n: u32, rest: Seq<bool>)
    requires
        n <= 32,
        has_flag(flags, FLAG_UNSIGNED) ==> 0 <= v < vstd::arithmetic::power2::pow2(n as nat),
        !has_flag(flags, FLAG_UNSIGNED) ==> n > 0 && -vstd::arithmetic::power2::pow2((n - 1) as nat)
            <= v < vstd::arithmetic::power2::pow2((n - 1) as nat),
    ensures
        take_int(int_prop_bits(v, n) + rest, flags, n) == Some((v, rest)),
{
    let p = vstd::arithmetic::power2::pow2(n as nat);
    if !has_flag(flags, FLAG_UNSIGNED) {
        vstd::arithmetic::power2::lemma_pow2_unfold(n as nat);
    }
    let enc: nat = if v < 0 { (v + p) as nat } else { v as nat };
    lemma_take_uint_round_trip(enc, n as nat, rest);
}

/// The wire bits of an unscaled float prop: its IEEE-754 bit pattern.
pub open spec fn float_bits_prop(bits: u32) -> Seq<bool> {
    uint_bits(bits as nat, 32)
}

/// An unscaled float comes back bit for bit from its wire bits.
pub proof fn lemma_no_scale_round_trip(bits: u32, flags: u32, bit_count: u32, rest: Seq<bool>)
    requires
        !has_flag(flags, FLAG_COORD),
        has_flag(flags, FLAG_NO_SCALE),
    ensures
        take_float(float_bits_prop(bits) + rest, flags, bit_count) == Some(
            (FloatValue::Bits(bits), rest),
        ),
{
    vstd::arithmetic::power2::lemma2_to64();
    lemma_take_uint_round_trip(bits as nat, 32, rest);
}

/// A linearly scaled float's step comes back from its `bit_count` wire bits.
pub proof fn lemma_scaled_round_trip(step: u32, flags: u32, bit_count: u32, rest: Seq<bool>)
    requires
        !has_flag(flags, FLAG_COORD),
        !has_flag(flags, FLAG_NO_SCALE),
        !has_flag(flags, FLAG_NORMAL),
        step < vstd::arithmetic::power2::pow2(bit_count as nat),
    ensures
        take_float(uint_bits(step as nat, bit_count as nat) + rest, flags, bit_count) == Some(
            (FloatValue::Scaled(step), rest),
        ),
{
    lemma_take_uint_round_trip(step as nat, bit_count as nat, rest);
}

/// Bytes come back from their wire bits.
pub proof fn lemma_bytes_round_trip(bytes: Seq<u8>, rest: Seq<bool>)
    ensures
        take_bytes(bytes_bits(bytes) + rest, bytes.len()) == Some((bytes, rest)),
    decreases bytes.len(),
{
    if bytes.len() > 0 {
        vstd::arithmetic::power2::lemma2_to64();
        let tail = bytes_bits(bytes.skip(1)) + rest;
        assert(bytes_bits(bytes) + rest =~= uint_bits(bytes[0] as nat, 8) + tail);
        lemma_take_uint_round_trip(bytes[0] as nat, 8, tail);
        lemma_bytes_round_trip(bytes.skip(1), rest);
        assert(seq![bytes[0]] + bytes.skip(1) =~= bytes);
    }
}

/// The wire bits of a string prop: a 9-bit byte count, then the bytes.
pub open spec fn string_prop_bits(bytes: Seq<u8>) -> Seq<bool> {
    uint_bits(bytes.len(), 9) + bytes_bits(bytes)
}

/// A string of fewer than 512 bytes comes back from its wire bits.
pub proof fn lemma_string_prop_round_trip(bytes: Seq<u8>, rest: Seq<bool>)
    requires
        bytes.len() < 512,
    ensures
        take_string_prop(string_prop_bits(bytes) + rest) == Some((bytes, rest)),
{
    vstd::arithmetic::power2::lemma2_to64();
    let tail = bytes_bits(bytes) + rest;
    assert(string_prop_bits(bytes) + rest =~= uint_bits(bytes.len(), 9) + tail);
    lemma_take_uint_round_trip(bytes.len(), 9, tail);
    lemma_bytes_round_trip(bytes, rest);
}

/// The wire bits of a coordinate of `units` 1/32 steps, `|units| < 16385 * 32`:
/// presence bits for the integer and fraction parts, a sign bit if either is
/// present, the integer part less one in 14 bits, the fraction in 5 bits.
pub open spec fn coord_bits(units: int) -> Seq<bool> {
    let mag: nat = if units < 0 { (-units) as nat } else { units as nat };
    let int_part: nat = mag / 32;
    let frac: nat = mag % 32;
    if mag == 0 {
        seq![false, false]
    } else {
        seq![int_part > 0, frac > 0, units < 0] + (if int_part > 0 {
            uint_bits((int_part - 1) as nat, 14)
        } else {
            Seq::empty()
        }) + (if frac > 0 {
            uint_bits(frac, 5)
        } else {
            Seq::empty()
        })
    }
}

/// A coordinate comes back from its wire bits.
pub proof fn lemma_coord_round_trip(units: int, rest: Seq<bool>)
    requires
        -16385 * 32 < units < 16385 * 32,
    ensures
        take_coord(coord_bits(units) + rest) == Some((units, rest)),
{
    vstd::arithmetic::power2::lemma2_to64();
    let mag: nat = if units < 0 { (-units) as nat } else { units as nat };
    let int_part: nat = mag / 32;
    let frac: nat = mag % 32;
    let b = coord_bits(units) + rest;
    if mag == 0 {
        assert(b.skip(2) =~= rest);
    } else {
        let ib = if int_part > 0 { uint_bits((int_part - 1) as nat, 14) } else { Seq::<bool>::empty() };
        let fb = if frac > 0 { uint_bits(frac, 5) } else { Seq::<bool>::empty() };
        assert(b.skip(3) =~= ib + (fb + rest));
        if int_part > 0 {
            lemma_take_uint_round_trip((int_part - 1) as nat, 14, fb + rest);
        } else {
            assert((ib + (fb + rest)) =~= fb + rest);
        }
        if frac > 0 {
            lemma_take_uint_round_trip(frac, 5, rest);
        } else {
            assert(fb + rest =~= rest);
        }
    }
}

} // verus!
