//! Interpretation of parsed document values as domain input.
//!
//! The surrounding tooling parses a product description document into plain
//! values — strings, integers, booleans, lists and mappings — and hands them
//! to this module, which checks and converts them into domain actions. Every
//! rule lives here: which keys are required, which value shape each property
//! type demands, and how numbers become byte and coordinate values.

use vstd::prelude::*;

use crate::errors::ParseError;
use crate::model::{
    build_product_create_action, build_product_delete_action, build_product_update_action,
    lat_long_in_range, lemma_view_props, view_prop, view_props, Action, ActionModel, DataType,
    LatLong, ProductCreateActionModel, ProductDeleteActionModel, ProductPayload,
    ProductPayloadModel, ProductType, ProductUpdateActionModel, PropertyData, PropertyDataModel,
    PropertyValue, PropertyValueModel,
};

verus! {

/// A parsed document value: the subset of a document the domain input uses,
/// as plain values. Integers that fit a signed 64-bit value are `Int`;
/// larger ones are `BigUint`; a floating-point number is `Real`, which no
/// domain field accepts. Mapping entries under non-string keys are dropped
/// by the caller, since no rule here looks one up.
#[derive(Debug, PartialEq, Eq)]
pub enum DataValue {
    Null,
    Bool(bool),
    Int(i64),
    BigUint(u64),
    Real,
    Text(String),
    List(Vec<DataValue>),
    Dict(ValueMap),
}

/// A parsed document mapping: entries in document order.
#[derive(Debug, PartialEq, Eq)]
pub struct ValueMap {
    pub entries: Vec<(String, DataValue)>,
}

/// The value under the first entry with the given key, if any.
pub open spec fn spec_get(entries: Seq<(String, DataValue)>, key: Seq<char>) -> Option<DataValue>
    decreases entries.len(),
{
    if entries.len() == 0 {
        Option::None
    } else if entries[0].0@ == key {
        Option::Some(entries[0].1)
    } else {
        spec_get(entries.drop_first(), key)
    }
}

/// Entries before `i` that never match `key` do not affect the lookup.
proof fn lemma_spec_get_skip(entries: Seq<(String, DataValue)>, i: int, key: Seq<char>)
    requires
        0 <= i <= entries.len(),
        forall|j: int| 0 <= j < i ==> (#[trigger] entries[j]).0@ != key,
    ensures
        spec_get(entries, key) == spec_get(entries.skip(i), key),
    decreases i,
{
    if i > 0 {
        assert(entries.len() > 0);
        lemma_spec_get_skip(entries.drop_first(), i - 1, key);
        assert(forall|j: int|
            0 <= j < i - 1 ==> (#[trigger] entries.drop_first()[j]) == entries[j + 1]);
        assert(entries.drop_first().skip(i - 1) =~= entries.skip(i));
    } else {
        assert(entries.skip(0) =~= entries);
    }
}

/// Whether two strings hold the same characters.
fn str_eq(a: &str, b: &str) -> (r: bool)
    ensures
        r == (a@ == b@),
{
    let n = a.unicode_len();
    if n != b.unicode_len() {
        return false;
    }
    let mut i: usize = 0;
    while i < n
        invariant
            i <= n,
            n == a@.len(),
            n == b@.len(),
            forall|j: int| 0 <= j < i ==> a@[j] == b@[j],
        decreases n - i,
    {
        if a.get_char(i) != b.get_char(i) {
            return false;
        }
        i = i + 1;
    }
    proof {
        assert(a@ =~= b@);
    }
    true
}

impl ValueMap {
    /// The value under the first entry with the given key, if any.
    pub fn get<'a>(&'a self, key: &str) -> (r: Option<&'a DataValue>)
        ensures
            match r {
                Option::Some(v) => spec_get(self.entries@, key@) == Option::Some(*v),
                Option::None => spec_get(self.entries@, key@) is None,
            },
    {
        let n = self.entries.len();
        let mut i: usize = 0;
        while i < n
            invariant
                i <= n,
                n == self.entries@.len(),
                forall|j: int| 0 <= j < i ==> (#[trigger] self.entries@[j]).0@ != key@,
            decreases n - i,
        {
            if str_eq(self.entries[i].0.as_str(), key) {
                proof {
                    lemma_spec_get_skip(self.entries@, i as int, key@);
                    assert(self.entries@.skip(i as int)[0] == self.entries@[i as int]);
                }
                return Some(&self.entries[i].1);
            }
            i = i + 1;
        }
        proof {
            lemma_spec_get_skip(self.entries@, n as int, key@);
            assert(self.entries@.skip(n as int) =~= Seq::<(String, DataValue)>::empty());
        }
        None
    }
}

/// The decimal digit bytes of a non-negative integer, most significant
/// first.
pub open spec fn dec_digits(n: int) -> Seq<u8>
    decreases n,
{
    if n < 10 {
        seq![(48 + if n >= 0 {
            n
        } else {
            0
        }) as u8]
    } else {
        dec_digits(n / 10).push((48 + n % 10) as u8)
    }
}

/// The decimal byte string of a signed integer: an optional minus sign, then
/// the digits of its magnitude. Exactly the UTF-8 bytes of the integer
/// written in decimal.
pub open spec fn spec_decimal_bytes(x: int) -> Seq<u8> {
    if x < 0 {
        seq![45u8] + dec_digits(-x)
    } else {
        dec_digits(x)
    }
}

/// The decimal byte string of a 64-bit integer.
pub fn i64_decimal_bytes(x: i64) -> (r: Vec<u8>)
    ensures
        r@ == spec_decimal_bytes(x as int),
{
    let neg = x < 0;
    let mut m: u64 = if x >= 0 {
        x as u64
    } else {
        ((-(x + 1)) as u64) + 1
    };
    let ghost m0 = m as int;
    let mut revd: Vec<u8> = Vec::new();
    if m == 0 {
        revd.push(48u8);
        proof {
            assert(revd@.reverse() =~= dec_digits(m0));
        }
    } else {
        proof {
            assert(revd@.reverse() =~= Seq::<u8>::empty());
            assert(dec_digits(m0) + Seq::<u8>::empty() =~= dec_digits(m0));
        }
        while m > 0
            invariant
                m0 > 0,
                if m > 0 {
                    dec_digits(m0) == dec_digits(m as int) + revd@.reverse()
                } else {
                    dec_digits(m0) == revd@.reverse()
                },
            decreases m,
        {
            let ghost pre_rev = revd@;
            let ghost mi = m as int;
            let d = (m % 10) as u8;
            revd.push(48 + d);
            proof {
                assert(revd@.reverse() =~= seq![(48 + mi % 10) as u8] + pre_rev.reverse());
            }
            m = m / 10;
            proof {
                if mi < 10 {
                    assert(dec_digits(mi) =~= seq![(48 + mi % 10) as u8]);
                    assert(dec_digits(m0) =~= revd@.reverse());
                } else {
                    assert(dec_digits(mi) == dec_digits(mi / 10).push((48 + mi % 10) as u8));
                    assert(dec_digits(mi / 10).push((48 + mi % 10) as u8) + pre_rev.reverse()
                        =~= dec_digits(mi / 10) + (seq![(48 + mi % 10) as u8] + pre_rev.reverse()));
                }
            }
        }
    }
    let ghost full = revd@;
    let mut out: Vec<u8> = Vec::new();
    if neg {
        out.push(45u8);
    }
    let ghost prefix = out@;
    while revd.len() > 0
        invariant
            revd@.len() <= full.len(),
            revd@ == full.take(revd@.len() as int),
            out@ == prefix + full.reverse().take(full.len() - revd@.len()),
        decreases revd@.len(),
    {
        let ghost pre = revd@;
        let b = revd.pop().unwrap();
        out.push(b);
        proof {
            assert(pre.last() == full[pre.len() - 1]);
            assert(full.reverse()[full.len() - pre.len()] == full[pre.len() - 1]);
            assert(revd@ =~= full.take(revd@.len() as int));
            assert(out@ =~= prefix + full.reverse().take(full.len() - revd@.len()));
        }
    }
    proof {
        assert(full.reverse().take(full.len() as int) =~= full.reverse());
        assert(out@ =~= prefix + full.reverse());
        assert(out@ =~= spec_decimal_bytes(x as int));
    }
    out
}

/// Whether a character is an ASCII decimal digit.
pub open spec fn is_digit_char(c: char) -> bool {
    48 <= c as u32 <= 57
}

/// The value of a run of decimal digit characters, most significant first.
pub open spec fn digits_val(s: Seq<char>) -> int
    decreases s.len(),
{
    if s.len() == 0 {
        0
    } else {
        digits_val(s.drop_last()) * 10 + (s.last() as u32 - 48)
    }
}

/// Whether every character of `s` is a decimal digit.
pub open spec fn all_digits(s: Seq<char>) -> bool {
    forall|i: int| 0 <= i < s.len() ==> is_digit_char(#[trigger] s[i])
}

/// What parsing a signed 64-bit decimal integer yields: an optional sign,
/// one or more digits, nothing else, and a value within the 64-bit range.
pub open spec fn parse_i64_spec(s: Seq<char>) -> Option<i64> {
    let neg = s.len() > 0 && s[0] == '-';
    let ds = if s.len() > 0 && (s[0] == '-' || s[0] == '+') {
        s.drop_first()
    } else {
        s
    };
    if ds.len() == 0 || !all_digits(ds) {
        Option::None
    } else {
        let v = if neg {
            -digits_val(ds)
        } else {
            digits_val(ds)
        };
        if -0x8000_0000_0000_0000 <= v <= 0x7fff_ffff_ffff_ffff {
            Option::Some(v as i64)
        } else {
            Option::None
        }
    }
}

/// A run of digits has a non-negative value.
proof fn lemma_digits_val_nonneg(s: Seq<char>)
    requires
        all_digits(s),
    ensures
        digits_val(s) >= 0,
    decreases s.len(),
{
    if s.len() > 0 {
        assert(forall|i: int|
            0 <= i < s.drop_last().len() ==> (#[trigger] s.drop_last()[i]) == s[i]);
        lemma_digits_val_nonneg(s.drop_last());
    }
}

/// Extending a run of digits never decreases its value.
proof fn lemma_digits_val_mono(s: Seq<char>, k: int)
    requires
        all_digits(s),
        0 <= k <= s.len(),
    ensures
        digits_val(s) >= digits_val(s.take(k)),
    decreases s.len() - k,
{
    if k < s.len() {
        assert(forall|i: int| 0 <= i < k + 1 ==> (#[trigger] s.take(k + 1)[i]) == s[i]);
        assert(s.take(k + 1).drop_last() =~= s.take(k));
        assert(s.take(k + 1).last() == s[k]);
        assert(forall|i: int| 0 <= i < k ==> (#[trigger] s.take(k)[i]) == s[i]);
        lemma_digits_val_nonneg(s.take(k));
        lemma_digits_val_mono(s, k + 1);
    } else {
        assert(s.take(k) =~= s);
    }
}

/// Parses a signed 64-bit decimal integer from text: an optional sign, one
/// or more digits, nothing else.
pub fn parse_i64(s: &str) -> (r: Option<i64>)
    ensures
        r == parse_i64_spec(s@),
{
    let n = s.unicode_len();
    let mut start: usize = 0;
    let mut neg = false;
    if n > 0 {
        let c0 = s.get_char(0);
        if c0 == '-' {
            neg = true;
            start = 1;
        } else if c0 == '+' {
            start = 1;
        }
    }
    let ghost ds = s@.skip(start as int);
    proof {
        if start == 0 {
            assert(s@.skip(0) =~= s@);
        } else {
            assert(s@.skip(1) =~= s@.drop_first());
        }
    }
    if start == n {
        return None;
    }
    let mut acc: u64 = 0;
    let mut j: usize = start;
    while j < n
        invariant
            start <= j <= n,
            n == s@.len(),
            start <= 1,
            neg == (s@.len() > 0 && s@[0] == '-'),
            ds == (if s@.len() > 0 && (s@[0] == '-' || s@[0] == '+') {
                s@.drop_first()
            } else {
                s@
            }),
            ds == s@.skip(start as int),
            ds.len() == n - start,
            forall|i: int| 0 <= i < ds.len() ==> ds[i] == s@[i + start],
            acc as int == digits_val(ds.take(j - start)),
            acc <= 0x8000_0000_0000_0000,
            all_digits(ds.take(j - start)),
        decreases n - j,
    {
        let c = s.get_char(j);
        let code = c as u32;
        if code < 48 || code > 57 {
            proof {
                assert(ds[j - start] == s@[j as int]);
                assert(!is_digit_char(ds[j - start]));
                assert(!all_digits(ds));
            }
            return None;
        }
        let d = (code - 48) as u64;
        proof {
            assert(ds.take(j - start + 1).drop_last() =~= ds.take(j - start));
            assert(ds.take(j - start + 1).last() == ds[j - start]);
            assert(forall|i: int|
                0 <= i < j - start + 1 ==> (#[trigger] ds.take(j - start + 1)[i]) == ds[i]);
        }
        if acc > (0x8000_0000_0000_0000u64 - d) / 10 {
            // the magnitude already exceeds the 64-bit range, and more
            // digits can only grow it
            proof {
                let big: int = 0x8000_0000_0000_0000;
                let q = (big - d) / 10;
                vstd::arithmetic::div_mod::lemma_fundamental_div_mod(big - d, 10);
                assert(digits_val(ds.take(j - start + 1)) == acc * 10 + d);
                assert(acc * 10 >= (q + 1) * 10) by (nonlinear_arith)
                    requires
                        acc >= q + 1,
                ;
                assert(digits_val(ds.take(j - start + 1)) > big);
                if all_digits(ds) {
                    lemma_digits_val_mono(ds, j - start + 1);
                }
            }
            return None;
        }
        proof {
            let big: int = 0x8000_0000_0000_0000;
            let q = (big - d) / 10;
            vstd::arithmetic::div_mod::lemma_fundamental_div_mod(big - d, 10);
            assert(acc * 10 <= q * 10) by (nonlinear_arith)
                requires
                    acc <= q,
            ;
        }
        acc = acc * 10 + d;
        j = j + 1;
    }
    proof {
        assert(ds.take(n - start) =~= ds);
    }
    if neg {
        if acc == 0x8000_0000_0000_0000u64 {
            Some(i64::MIN)
        } else {
            Some(-(acc as i64))
        }
    } else {
        if acc > 0x7fff_ffff_ffff_ffffu64 {
            None
        } else {
            Some(acc as i64)
        }
    }
}

/// The characters of `s` before its first comma.
pub open spec fn first_field(s: Seq<char>) -> Seq<char>
    decreases s.len(),
{
    if s.len() == 0 || s[0] == ',' {
        Seq::empty()
    } else {
        seq![s[0]] + first_field(s.drop_first())
    }
}

/// The characters of `s` after its first comma; `None` when `s` has none.
pub open spec fn after_first_comma(s: Seq<char>) -> Option<Seq<char>>
    decreases s.len(),
{
    if s.len() == 0 {
        Option::None
    } else if s[0] == ',' {
        Option::Some(s.drop_first())
    } else {
        after_first_comma(s.drop_first())
    }
}

/// A scan that found no comma before `i` determines both splitting
/// functions.
proof fn lemma_comma_scan(s: Seq<char>, i: int)
    requires
        0 <= i <= s.len(),
        forall|j: int| 0 <= j < i ==> s[j] != ',',
        i < s.len() ==> s[i] == ',',
    ensures
        i == s.len() ==> first_field(s) == s && after_first_comma(s) is None,
        i < s.len() ==> first_field(s) == s.take(i) && after_first_comma(s) == Option::Some(
            s.skip(i + 1),
        ),
    decreases s.len(),
{
    if i == 0 {
        if s.len() > 0 && s[0] == ',' {
            assert(s.take(0) =~= Seq::<char>::empty());
            assert(s.skip(1) =~= s.drop_first());
        }
    } else {
        let t = s.drop_first();
        assert(forall|j: int| 0 <= j < t.len() ==> t[j] == s[j + 1]);
        lemma_comma_scan(t, i - 1);
        if i == s.len() {
            assert(seq![s[0]] + t =~= s);
        } else {
            assert(seq![s[0]] + t.take(i - 1) =~= s.take(i));
            assert(t.skip(i) =~= s.skip(i + 1));
        }
    }
}

/// What parsing a coordinate from text yields: the first two
/// comma-separated fields as signed integers, within the latitude and
/// longitude ranges. Text without a comma, a field that is not an integer,
/// and an out-of-range coordinate are all rejected.
pub open spec fn spec_lat_long(s: Seq<char>) -> Option<LatLong> {
    match after_first_comma(s) {
        Option::None => Option::None,
        Option::Some(rest) => {
            match (parse_i64_spec(first_field(s)), parse_i64_spec(first_field(rest))) {
                (Option::Some(la), Option::Some(lo)) => if lat_long_in_range(la, lo) {
                    Option::Some(LatLong { latitude: la, longitude: lo })
                } else {
                    Option::None
                },
                _ => Option::None,
            }
        },
    }
}

/// The ASCII-lowercase counterpart of one character; others are unchanged.
pub open spec fn ascii_lower_char(c: char) -> char {
    if 65 <= c as u32 <= 90 {
        ((c as u32 + 32) as u32) as char
    } else {
        c
    }
}

/// The ASCII-uppercase counterpart of one character; others are unchanged.
pub open spec fn ascii_upper_char(c: char) -> char {
    if 97 <= c as u32 <= 122 {
        ((c as u32 - 32) as u32) as char
    } else {
        c
    }
}

/// ASCII-lowercase, character by character.
pub open spec fn ascii_lower(s: Seq<char>) -> Seq<char> {
    Seq::new(s.len(), |i: int| ascii_lower_char(s[i]))
}

/// ASCII-uppercase, character by character.
pub open spec fn ascii_upper(s: Seq<char>) -> Seq<char> {
    Seq::new(s.len(), |i: int| ascii_upper_char(s[i]))
}

/// ASCII-lowercases a string.
fn ascii_lowercase(s: &str) -> (r: String)
    ensures
        r@ == ascii_lower(s@),
{
    let n = s.unicode_len();
    let mut out = String::new();
    let mut i: usize = 0;
    while i < n
        invariant
            i <= n,
            n == s@.len(),
            out@ == ascii_lower(s@).take(i as int),
        decreases n - i,
    {
        let c = s.get_char(i);
        let code = c as u32;
        let lc = if 65 <= code && code <= 90 {
            proof {
                vstd::utf8::char_is_scalar(c);
            }
            match char::from_u32(code + 32) {
                Some(l) => l,
                None => c,
            }
        } else {
            c
        };
        proof {
            if 65 <= code && code <= 90 {
                vstd::utf8::char_u32_cast(lc, (code + 32) as u32);
            }
            assert(lc == ascii_lower_char(c));
        }
        out.push(lc);
        proof {
            assert(out@ =~= ascii_lower(s@).take(i as int + 1));
        }
        i = i + 1;
    }
    proof {
        assert(ascii_lower(s@).take(n as int) =~= ascii_lower(s@));
    }
    out
}

/// ASCII-uppercases a string.
fn ascii_uppercase(s: &str) -> (r: String)
    ensures
        r@ == ascii_upper(s@),
{
    let n = s.unicode_len();
    let mut out = String::new();
    let mut i: usize = 0;
    while i < n
        invariant
            i <= n,
            n == s@.len(),
            out@ == ascii_upper(s@).take(i as int),
        decreases n - i,
    {
        let c = s.get_char(i);
        let code = c as u32;
        let uc = if 97 <= code && code <= 122 {
            proof {
                vstd::utf8::char_is_scalar(c);
            }
            match char::from_u32(code - 32) {
                Some(u) => u,
                None => c,
            }
        } else {
            c
        };
        proof {
            if 97 <= code && code <= 122 {
                vstd::utf8::char_u32_cast(uc, (code - 32) as u32);
            }
            assert(uc == ascii_upper_char(c));
        }
        out.push(uc);
        proof {
            assert(out@ =~= ascii_upper(s@).take(i as int + 1));
        }
        i = i + 1;
    }
    proof {
        assert(ascii_upper(s@).take(n as int) =~= ascii_upper(s@));
    }
    out
}

/// The property type named by an already-lowercased type name.
pub open spec fn spec_data_type_of(t: Seq<char>) -> Option<DataType> {
    if t == "string"@ {
        Option::Some(DataType::Str)
    } else if t == "boolean"@ {
        Option::Some(DataType::Boolean)
    } else if t == "bytes"@ {
        Option::Some(DataType::Bytes)
    } else if t == "number"@ {
        Option::Some(DataType::Number)
    } else if t == "enum"@ {
        Option::Some(DataType::Enum)
    } else if t == "struct"@ {
        Option::Some(DataType::Struct)
    } else if t == "lat_long"@ {
        Option::Some(DataType::LatLong)
    } else {
        Option::None
    }
}

/// The product standard named by an already-uppercased name.
pub open spec fn spec_product_type_of(t: Seq<char>) -> Option<ProductType> {
    if t == "GS1"@ {
        Option::Some(ProductType::GS1)
    } else {
        Option::None
    }
}

/// A diagnostic message: the key, between fixed prose.
fn invalid_value_msg(key: &str, expected: &str) -> (r: String) {
    let mut m = String::from_str("Value of ");
    m.append(key);
    m.append(" has an invalid format. Expected is a yaml ");
    m.append(expected);
    m.append(".");
    m
}

/// A diagnostic message for a missing key.
fn missing_field_msg(key: &str) -> (r: String) {
    let mut m = String::from_str("Missing `");
    m.append(key);
    m.append("` field.");
    m
}

/// Interprets a type name, case-insensitively (ASCII), as a property type.
pub fn parse_value_as_data_type(data_type: &str) -> (r: Result<DataType, ParseError>)
    ensures
        match spec_data_type_of(ascii_lower(data_type@)) {
            Option::Some(t) => r matches Ok(rt) && rt == t,
            Option::None => r is Err,
        },
{
    let lower = ascii_lowercase(data_type);
    if str_eq(lower.as_str(), "string") {
        Ok(DataType::Str)
    } else if str_eq(lower.as_str(), "boolean") {
        Ok(DataType::Boolean)
    } else if str_eq(lower.as_str(), "bytes") {
        Ok(DataType::Bytes)
    } else if str_eq(lower.as_str(), "number") {
        Ok(DataType::Number)
    } else if str_eq(lower.as_str(), "enum") {
        Ok(DataType::Enum)
    } else if str_eq(lower.as_str(), "struct") {
        Ok(DataType::Struct)
    } else if str_eq(lower.as_str(), "lat_long") {
        Ok(DataType::LatLong)
    } else {
        let mut m = String::from_str("Invalid data type for PropertyDefinition: ");
        m.append(data_type);
        Err(ParseError::InvalidYaml(m))
    }
}

/// Interprets a standard name, case-insensitively (ASCII), as a product
/// standard.
pub fn parse_value_as_product_type(product_type: &str) -> (r: Result<ProductType, ParseError>)
    ensures
        match spec_product_type_of(ascii_upper(product_type@)) {
            Option::Some(t) => r matches Ok(rt) && rt == t,
            Option::None => r is Err,
        },
{
    let upper = ascii_uppercase(product_type);
    if str_eq(upper.as_str(), "GS1") {
        Ok(ProductType::GS1)
    } else {
        let mut m = String::from_str("Invalid product_type for value: ");
        m.append(product_type);
        Err(ParseError::InvalidYaml(m))
    }
}

/// Reads the value under `key` as a string. An absent key is `None`; a
/// value of any other shape is an error.
pub fn parse_value_as_string(property: &ValueMap, key: &str) -> (r: Result<
    Option<String>,
    ParseError,
>)
    ensures
        match spec_get(property.entries@, key@) {
            Option::None => r matches Ok(o) && o is None,
            Option::Some(DataValue::Text(s)) => r matches Ok(o) && o matches Some(out) && out@
                == s@,
            Option::Some(_) => r is Err,
        },
{
    match property.get(key) {
        None => Ok(None),
        Some(DataValue::Text(s)) => Ok(Some(s.clone())),
        Some(_) => Err(ParseError::InvalidYaml(invalid_value_msg(key, "string"))),
    }
}

/// Reads the value under `key` as a boolean.
pub fn parse_value_as_boolean(property: &ValueMap, key: &str) -> (r: Result<
    Option<bool>,
    ParseError,
>)
    ensures
        match spec_get(property.entries@, key@) {
            Option::None => r matches Ok(o) && o is None,
            Option::Some(DataValue::Bool(b)) => r matches Ok(o) && o == Some(b),
            Option::Some(_) => r is Err,
        },
{
    match property.get(key) {
        None => Ok(None),
        Some(DataValue::Bool(b)) => Ok(Some(*b)),
        Some(_) => Err(ParseError::InvalidYaml(invalid_value_msg(key, "boolean (true/false)"))),
    }
}

/// Reads the value under `key` as a signed 64-bit integer.
pub fn parse_value_as_i64(property: &ValueMap, key: &str) -> (r: Result<Option<i64>, ParseError>)
    ensures
        match spec_get(property.entries@, key@) {
            Option::None => r matches Ok(o) && o is None,
            Option::Some(DataValue::Int(x)) => r matches Ok(o) && o == Some(x),
            Option::Some(_) => r is Err,
        },
{
    match property.get(key) {
        None => Ok(None),
        Some(DataValue::Int(x)) => Ok(Some(*x)),
        Some(_) => Err(ParseError::InvalidYaml(invalid_value_msg(key, "integer"))),
    }
}

/// Reads the value under `key` as an unsigned 32-bit integer: a
/// non-negative integer no larger than the 32-bit maximum.
pub fn parse_value_as_u32(property: &ValueMap, key: &str) -> (r: Result<Option<u32>, ParseError>)
    ensures
        match spec_get(property.entries@, key@) {
            Option::None => r matches Ok(o) && o is None,
            Option::Some(DataValue::Int(x)) => if 0 <= x <= 0xffff_ffff {
                r matches Ok(o) && o == Some(x as u32)
            } else {
                r is Err
            },
            Option::Some(_) => r is Err,
        },
{
    match property.get(key) {
        None => Ok(None),
        Some(DataValue::Int(x)) => {
            if *x < 0 || *x > 0xffff_ffffi64 {
                Err(ParseError::InvalidYaml(invalid_value_msg(key, "integer")))
            } else {
                Ok(Some(*x as u32))
            }
        },
        Some(_) => Err(ParseError::InvalidYaml(invalid_value_msg(key, "integer"))),
    }
}

/// Reads the value under `key` as a byte value: an integer, re-written in
/// decimal and taken as its UTF-8 bytes — `500` becomes the three bytes of
/// the text `"500"`. This mirrors how the surrounding tooling has always
/// produced byte values, and the wire format depends on it.
pub fn parse_value_as_bytes(property: &ValueMap, key: &str) -> (r: Result<
    Option<Vec<u8>>,
    ParseError,
>)
    ensures
        match spec_get(property.entries@, key@) {
            Option::None => r matches Ok(o) && o is None,
            Option::Some(DataValue::Int(x)) => r matches Ok(o) && o matches Some(v) && v@
                == spec_decimal_bytes(x as int),
            Option::Some(_) => r is Err,
        },
{
    match property.get(key) {
        None => Ok(None),
        Some(DataValue::Int(x)) => Ok(Some(i64_decimal_bytes(*x))),
        Some(_) => Err(ParseError::InvalidYaml(invalid_value_msg(key, "integer"))),
    }
}

/// Reads the value under `key` as a list, borrowed from the mapping.
pub fn parse_value_as_sequence<'a>(property: &'a ValueMap, key: &str) -> (r: Result<
    Option<&'a Vec<DataValue>>,
    ParseError,
>)
    ensures
        match spec_get(property.entries@, key@) {
            Option::None => r matches Ok(o) && o is None,
            Option::Some(DataValue::List(v)) => r matches Ok(o) && o matches Some(out) && *out
                == v,
            Option::Some(_) => r is Err,
        },
{
    match property.get(key) {
        None => Ok(None),
        Some(DataValue::List(v)) => Ok(Some(v)),
        Some(_) => Err(ParseError::InvalidYaml(invalid_value_msg(key, "list"))),
    }
}

/// Reads the value under `key` as a coordinate: text of the form
/// `"<lat>,<long>"` in millionths of a degree. Text without a comma is
/// rejected, as are non-integer fields and out-of-range coordinates.
pub fn parse_value_as_lat_long(property: &ValueMap, key: &str) -> (r: Result<
    Option<LatLong>,
    ParseError,
>)
    ensures
        match spec_get(property.entries@, key@) {
            Option::None => r matches Ok(o) && o is None,
            Option::Some(DataValue::Text(s)) => match spec_lat_long(s@) {
                Option::Some(ll) => r matches Ok(o) && o == Some(ll),
                Option::None => r is Err,
            },
            Option::Some(_) => r is Err,
        },
{
    let s = match property.get(key) {
        None => {
            return Ok(None);
        },
        Some(DataValue::Text(s)) => s,
        Some(_) => {
            return Err(ParseError::InvalidYaml(invalid_value_msg(key, "string")));
        },
    };
    let text = s.as_str();
    let n = text.unicode_len();
    // scan for the first comma
    let mut c1: usize = 0;
    while c1 < n && text.get_char(c1) != ','
        invariant
            c1 <= n,
            n == text@.len(),
            forall|j: int| 0 <= j < c1 ==> text@[j] != ',',
        decreases n - c1,
    {
        c1 = c1 + 1;
    }
    proof {
        lemma_comma_scan(text@, c1 as int);
    }
    if c1 == n {
        return Err(
            ParseError::InvalidYaml(
                invalid_value_msg(key, "string of two comma-separated integers"),
            ),
        );
    }
    // the first field
    let mut field1 = String::new();
    let mut i: usize = 0;
    while i < c1
        invariant
            i <= c1 <= n,
            n == text@.len(),
            field1@ == text@.take(c1 as int).take(i as int),
        decreases c1 - i,
    {
        let c = text.get_char(i);
        field1.push(c);
        proof {
            assert(field1@ =~= text@.take(c1 as int).take(i as int + 1));
        }
        i = i + 1;
    }
    proof {
        assert(text@.take(c1 as int).take(c1 as int) =~= text@.take(c1 as int));
    }
    // scan for the second comma
    let ghost rest = text@.skip(c1 as int + 1);
    let mut c2: usize = c1 + 1;
    while c2 < n && text.get_char(c2) != ','
        invariant
            c1 + 1 <= c2 <= n,
            n == text@.len(),
            forall|j: int| c1 + 1 <= j < c2 ==> text@[j] != ',',
        decreases n - c2,
    {
        c2 = c2 + 1;
    }
    proof {
        assert(forall|j: int| 0 <= j < rest.len() ==> rest[j] == text@[j + c1 + 1]);
        lemma_comma_scan(rest, c2 - c1 - 1);
        if c2 < n {
            assert(rest.take(c2 - c1 - 1) =~= text@.subrange(c1 as int + 1, c2 as int));
        } else {
            assert(rest =~= text@.subrange(c1 as int + 1, c2 as int));
        }
    }
    // the second field
    let mut field2 = String::new();
    let mut k: usize = c1 + 1;
    while k < c2
        invariant
            c1 + 1 <= k <= c2 <= n,
            n == text@.len(),
            field2@ == text@.subrange(c1 as int + 1, k as int),
        decreases c2 - k,
    {
        let c = text.get_char(k);
        field2.push(c);
        proof {
            assert(field2@ =~= text@.subrange(c1 as int + 1, k as int + 1));
        }
        k = k + 1;
    }
    let la = match parse_i64(field1.as_str()) {
        Some(v) => v,
        None => {
            return Err(
                ParseError::InvalidYaml(
                    String::from_str("Failed to parse the Latitude value for LatLong"),
                ),
            );
        },
    };
    let lo = match parse_i64(field2.as_str()) {
        Some(v) => v,
        None => {
            return Err(
                ParseError::InvalidYaml(
                    String::from_str("Failed to parse the Longitude value for LatLong"),
                ),
            );
        },
    };
    match crate::model::build_lat_long(la, lo) {
        Ok(ll) => Ok(Some(ll)),
        Err(_) => Err(ParseError::InvalidYaml(String::from_str("Failed to build LatLong"))),
    }
}

/// The type tag of a property model's payload.
pub open spec fn data_type_of_model(d: PropertyDataModel) -> DataType {
    match d {
        PropertyDataModel::Bytes(_) => DataType::Bytes,
        PropertyDataModel::Boolean(_) => DataType::Boolean,
        PropertyDataModel::Number(_) => DataType::Number,
        PropertyDataModel::Str(_) => DataType::Str,
        PropertyDataModel::Enum(_) => DataType::Enum,
        PropertyDataModel::Struct(_) => DataType::Struct,
        PropertyDataModel::LatLong(_) => DataType::LatLong,
    }
}

/// Whether `pv` is exactly the property value that the mapping `entries`
/// describes: the mapping names `pv`'s name and type, and holds, under the
/// key matching that type, exactly `pv`'s value. Nested struct values
/// recurse element by element.
pub open spec fn represents_property(
    entries: Seq<(String, DataValue)>,
    pv: PropertyValueModel,
) -> bool
    decreases pv,
{
    &&& (match spec_get(entries, "name"@) {
        Option::Some(DataValue::Text(n)) => pv.name == n@,
        _ => false,
    })
    &&& (match spec_get(entries, "data_type"@) {
        Option::Some(DataValue::Text(t)) => spec_data_type_of(ascii_lower(t@)) == Option::Some(
            data_type_of_model(pv.data),
        ),
        _ => false,
    })
    &&& (match pv.data {
        PropertyDataModel::Bytes(b) => (match spec_get(entries, "bytes_value"@) {
            Option::Some(DataValue::Int(i)) => b == spec_decimal_bytes(i as int),
            _ => false,
        }),
        PropertyDataModel::Boolean(x) => (match spec_get(entries, "boolean_value"@) {
            Option::Some(DataValue::Bool(bb)) => bb == x,
            _ => false,
        }),
        PropertyDataModel::Number(x) => (match spec_get(entries, "number_value"@) {
            Option::Some(DataValue::Int(i)) => i == x,
            _ => false,
        }),
        PropertyDataModel::Str(sv) => (match spec_get(entries, "string_value"@) {
            Option::Some(DataValue::Text(t)) => sv == t@,
            _ => false,
        }),
        PropertyDataModel::Enum(e) => (match spec_get(entries, "enum_value"@) {
            Option::Some(DataValue::Int(i)) => 0 <= i <= 0xffff_ffff && i as u32 == e,
            _ => false,
        }),
        PropertyDataModel::Struct(children) => (match spec_get(entries, "struct_values"@) {
            Option::Some(DataValue::List(vs)) => represents_properties(vs@, children),
            _ => false,
        }),
        PropertyDataModel::LatLong(ll) => (match spec_get(entries, "lat_long_value"@) {
            Option::Some(DataValue::Text(t)) => spec_lat_long(t@) == Option::Some(ll),
            _ => false,
        }),
    })
}

/// Whether `children` are exactly the property values that the list `vs` of
/// mappings describes, element by element and in order.
pub open spec fn represents_properties(vs: Seq<DataValue>, children: Seq<PropertyValueModel>) -> bool
    decreases children,
{
    if vs.len() != children.len() {
        false
    } else if children.len() == 0 {
        true
    } else {
        (match vs[0] {
            DataValue::Dict(m) => represents_property(m.entries@, children[0]),
            _ => false,
        }) && represents_properties(vs.drop_first(), children.drop_first())
    }
}

/// Appending one represented element to a represented run.
proof fn lemma_represents_properties_snoc(
    vs: Seq<DataValue>,
    children: Seq<PropertyValueModel>,
    v: DataValue,
    c: PropertyValueModel,
)
    requires
        represents_properties(vs, children),
        match v {
            DataValue::Dict(m) => represents_property(m.entries@, c),
            _ => false,
        },
    ensures
        represents_properties(vs.push(v), children.push(c)),
    decreases children.len(),
{
    if children.len() == 0 {
        assert(vs.push(v)[0] == v);
        assert(vs.push(v).drop_first() =~= Seq::<DataValue>::empty());
        assert(children.push(c).drop_first() =~= Seq::<PropertyValueModel>::empty());
        assert(children.push(c)[0] == c);
        assert(represents_properties(
            Seq::<DataValue>::empty(),
            Seq::<PropertyValueModel>::empty(),
        ));
    } else {
        lemma_represents_properties_snoc(vs.drop_first(), children.drop_first(), v, c);
        assert(vs.push(v)[0] == vs[0]);
        assert(children.push(c)[0] == children[0]);
        assert(vs.push(v).drop_first() =~= vs.drop_first().push(v));
        assert(children.push(c).drop_first() =~= children.drop_first().push(c));
    }
}

/// A represented run determines each of its elements.
proof fn lemma_represents_properties_index(
    vs: Seq<DataValue>,
    children: Seq<PropertyValueModel>,
    i: int,
)
    requires
        represents_properties(vs, children),
        0 <= i < vs.len(),
    ensures
        match vs[i] {
            DataValue::Dict(m) => represents_property(m.entries@, children[i]),
            _ => false,
        },
    decreases i,
{
    if i > 0 {
        lemma_represents_properties_index(vs.drop_first(), children.drop_first(), i - 1);
        assert(vs.drop_first()[i - 1] == vs[i]);
        assert(children.drop_first()[i - 1] == children[i]);
    }
}

/// Parsing is deterministic: a mapping describes at most one property value,
/// so the parse result is pinned by the document alone.
pub proof fn lemma_represents_property_unique(
    entries: Seq<(String, DataValue)>,
    a: PropertyValueModel,
    b: PropertyValueModel,
)
    requires
        represents_property(entries, a),
        represents_property(entries, b),
    ensures
        a == b,
    decreases a,
{
    match (a.data, b.data) {
        (PropertyDataModel::Struct(ca), PropertyDataModel::Struct(cb)) => {
            match spec_get(entries, "struct_values"@) {
                Option::Some(DataValue::List(vs)) => {
                    lemma_represents_properties_unique(vs@, ca, cb);
                },
                _ => {},
            }
        },
        _ => {},
    }
}

/// Parsing a list of mappings is deterministic, element by element.
pub proof fn lemma_represents_properties_unique(
    vs: Seq<DataValue>,
    a: Seq<PropertyValueModel>,
    b: Seq<PropertyValueModel>,
)
    requires
        represents_properties(vs, a),
        represents_properties(vs, b),
    ensures
        a == b,
    decreases a,
{
    if a.len() == 0 {
        assert(a =~= b);
    } else {
        match vs[0] {
            DataValue::Dict(m) => {
                lemma_represents_property_unique(m.entries@, a[0], b[0]);
            },
            _ => {},
        }
        lemma_represents_properties_unique(vs.drop_first(), a.drop_first(), b.drop_first());
        assert forall|i: int| 0 <= i < a.len() implies a[i] == b[i] by {
            if i > 0 {
                assert(a.drop_first()[i - 1] == b.drop_first()[i - 1]);
            }
        }
        assert(a =~= b);
    }
}

/// A successful lookup yields a value from inside the entries.
proof fn lemma_spec_get_decreases(entries: Seq<(String, DataValue)>, key: Seq<char>)
    requires
        spec_get(entries, key) is Some,
    ensures
        decreases_to!(entries => spec_get(entries, key).unwrap()),
    decreases entries.len(),
{
    if entries.len() > 0 {
        if entries[0].0@ == key {
            assert(decreases_to!(entries => entries[0]));
            assert(decreases_to!(entries[0] => entries[0].1));
        } else {
            lemma_spec_get_decreases(entries.drop_first(), key);
            assert(decreases_to!(entries => entries.drop_first()));
        }
    }
}

/// Interprets one mapping as a property value: the mapping must name the
/// value and its type and hold exactly the matching value field. Fails
/// exactly when no property value is described by the mapping.
pub fn parse_value_as_property_values(property: &ValueMap) -> (r: Result<
    PropertyValue,
    ParseError,
>)
    ensures
        r matches Ok(pv) ==> represents_property(property.entries@, view_prop(pv)),
        r is Err ==> !(exists|pv: PropertyValueModel|
            represents_property(property.entries@, pv)),
    decreases property.entries@, 1int,
{
    let ghost entries = property.entries@;
    let dt_string = match parse_value_as_string(property, "data_type") {
        Ok(Some(s)) => s,
        Ok(None) => {
            return Err(
                ParseError::InvalidYaml(
                    String::from_str("Missing `data_type` field for property definition."),
                ),
            );
        },
        Err(e) => {
            return Err(e);
        },
    };
    let data_type = match parse_value_as_data_type(dt_string.as_str()) {
        Ok(t) => t,
        Err(e) => {
            return Err(e);
        },
    };
    let name = match parse_value_as_string(property, "name") {
        Ok(Some(s)) => s,
        Ok(None) => {
            return Err(
                ParseError::InvalidYaml(
                    String::from_str("Missing `name` field for product property value."),
                ),
            );
        },
        Err(e) => {
            return Err(e);
        },
    };
    let data: PropertyData = match data_type {
        DataType::Bytes => {
            match parse_value_as_bytes(property, "bytes_value") {
                Ok(Some(v)) => PropertyData::Bytes(v),
                Ok(None) => {
                    return Err(
                        ParseError::InvalidYaml(
                            String::from_str(
                                "Missing `bytes_value` field for property value with type BYTES.",
                            ),
                        ),
                    );
                },
                Err(e) => {
                    return Err(e);
                },
            }
        },
        DataType::Boolean => {
            match parse_value_as_boolean(property, "boolean_value") {
                Ok(Some(b)) => PropertyData::Boolean(b),
                Ok(None) => {
                    return Err(
                        ParseError::InvalidYaml(
                            String::from_str(
                                "Missing `boolean_value` field for property value with type BOOLEAN.",
                            ),
                        ),
                    );
                },
                Err(e) => {
                    return Err(e);
                },
            }
        },
        DataType::Number => {
            match parse_value_as_i64(property, "number_value") {
                Ok(Some(x)) => PropertyData::Number(x),
                Ok(None) => {
                    return Err(
                        ParseError::InvalidYaml(
                            String::from_str(
                                "Missing `number_value` field for property value with type NUMBER.",
                            ),
                        ),
                    );
                },
                Err(e) => {
                    return Err(e);
                },
            }
        },
        DataType::Str => {
            match parse_value_as_string(property, "string_value") {
                Ok(Some(s)) => PropertyData::Str(s),
                Ok(None) => {
                    return Err(
                        ParseError::InvalidYaml(
                            String::from_str(
                                "Missing `string_value` field for property value with type STRING.",
                            ),
                        ),
                    );
                },
                Err(e) => {
                    return Err(e);
                },
            }
        },
        DataType::Enum => {
            match parse_value_as_u32(property, "enum_value") {
                Ok(Some(x)) => PropertyData::Enum(x),
                Ok(None) => {
                    return Err(
                        ParseError::InvalidYaml(
                            String::from_str(
                                "Missing `enum_value` field for property value with type ENUM.",
                            ),
                        ),
                    );
                },
                Err(e) => {
                    return Err(e);
                },
            }
        },
        DataType::Struct => {
            let sv = match property.get("struct_values") {
                Some(v) => v,
                None => {
                    return Err(
                        ParseError::InvalidYaml(
                            String::from_str(
                                "Missing `struct_values` field for property value with type STRUCT.",
                            ),
                        ),
                    );
                },
            };
            match sv {
                DataValue::List(vs) => {
                    proof {
                        lemma_spec_get_decreases(entries, "struct_values"@);
                        assert(decreases_to!(entries => vs@));
                    }
                    let children = match parse_value_as_properties(vs) {
                        Ok(cs) => cs,
                        Err(e) => {
                            proof {
                                assert forall|pv: PropertyValueModel| !represents_property(
                                    entries,
                                    pv,
                                ) by {
                                    if represents_property(entries, pv) {
                                        match pv.data {
                                            PropertyDataModel::Struct(children) => {
                                                assert(represents_properties(vs@, children));
                                            },
                                            _ => {},
                                        }
                                    }
                                }
                            }
                            return Err(e);
                        },
                    };
                    PropertyData::Struct(children)
                },
                _ => {
                    return Err(
                        ParseError::InvalidYaml(
                            String::from_str(
                                "Value of struct_values has an invalid format. Expected is a yaml list.",
                            ),
                        ),
                    );
                },
            }
        },
        DataType::LatLong => {
            match parse_value_as_lat_long(property, "lat_long_value") {
                Ok(Some(ll)) => PropertyData::LatLong(ll),
                Ok(None) => {
                    return Err(
                        ParseError::InvalidYaml(
                            String::from_str(
                                "Missing `lat_long_value` field for property value with type LATLONG.",
                            ),
                        ),
                    );
                },
                Err(e) => {
                    return Err(e);
                },
            }
        },
    };
    let pv = PropertyValue { name, data };
    Ok(pv)
}

/// Interprets a list of mappings as property values, in order. Fails
/// exactly when some element is not a mapping or describes no property
/// value.
pub fn parse_value_as_properties(properties: &Vec<DataValue>) -> (r: Result<
    Vec<PropertyValue>,
    ParseError,
>)
    ensures
        r matches Ok(pvs) ==> represents_properties(properties@, view_props(pvs@)),
        r is Err ==> !(exists|cs: Seq<PropertyValueModel>|
            represents_properties(properties@, cs)),
    decreases properties@, 0int,
{
    let n = properties.len();
    let mut out: Vec<PropertyValue> = Vec::new();
    proof {
        lemma_view_props(out@);
        assert(view_props(out@) =~= Seq::<PropertyValueModel>::empty());
        assert(properties@.take(0) =~= Seq::<DataValue>::empty());
    }
    let mut i: usize = 0;
    while i < n
        invariant
            i <= n,
            n == properties@.len(),
            view_props(out@).len() == i,
            represents_properties(properties@.take(i as int), view_props(out@)),
        decreases n - i,
    {
        let v = &properties[i];
        let m = match v {
            DataValue::Dict(m) => m,
            _ => {
                proof {
                    assert forall|cs: Seq<PropertyValueModel>| !represents_properties(
                        properties@,
                        cs,
                    ) by {
                        if represents_properties(properties@, cs) {
                            lemma_represents_properties_index(properties@, cs, i as int);
                        }
                    }
                }
                return Err(
                    ParseError::InvalidYaml(
                        String::from_str("Failed to parse schema property definition."),
                    ),
                );
            },
        };
        proof {
            assert(decreases_to!(properties@ => m.entries@));
        }
        let pv = match parse_value_as_property_values(m) {
            Ok(pv) => pv,
            Err(e) => {
                proof {
                    assert forall|cs: Seq<PropertyValueModel>| !represents_properties(
                        properties@,
                        cs,
                    ) by {
                        if represents_properties(properties@, cs) {
                            lemma_represents_properties_index(properties@, cs, i as int);
                        }
                    }
                }
                return Err(e);
            },
        };
        let ghost prev_out = out@;
        let ghost pvm = view_prop(pv);
        out.push(pv);
        proof {
            lemma_view_props(prev_out);
            lemma_view_props(out@);
            assert(view_props(out@) =~= view_props(prev_out).push(pvm));
            assert(properties@.take(i as int + 1) =~= properties@.take(i as int).push(
                properties@[i as int],
            ));
            lemma_represents_properties_snoc(
                properties@.take(i as int),
                view_props(prev_out),
                properties@[i as int],
                pvm,
            );
        }
        i = i + 1;
    }
    proof {
        assert(properties@.take(n as int) =~= properties@);
    }
    Ok(out)
}

/// Which product action a run of product documents should produce.
#[derive(Debug, Clone, Copy, PartialEq, Eq, Structural)]
pub enum ActionKind {
    Create,
    Update,
    Delete,
}

/// Whether `a` is exactly the create action the mapping describes.
pub open spec fn represents_create(
    entries: Seq<(String, DataValue)>,
    a: ProductCreateActionModel,
) -> bool {
    &&& (match spec_get(entries, "product_id"@) {
        Option::Some(DataValue::Text(s)) => a.product_id == s@,
        _ => false,
    })
    &&& (match spec_get(entries, "product_type"@) {
        Option::Some(DataValue::Text(s)) => spec_product_type_of(ascii_upper(s@)) == Option::Some(
            a.product_type,
        ),
        _ => false,
    })
    &&& (match spec_get(entries, "owner"@) {
        Option::Some(DataValue::Text(s)) => a.owner == s@,
        _ => false,
    })
    &&& (match spec_get(entries, "properties"@) {
        Option::Some(DataValue::List(vs)) => represents_properties(vs@, a.properties),
        _ => false,
    })
}

/// Whether `a` is exactly the update action the mapping describes.
pub open spec fn represents_update(
    entries: Seq<(String, DataValue)>,
    a: ProductUpdateActionModel,
) -> bool {
    &&& (match spec_get(entries, "product_id"@) {
        Option::Some(DataValue::Text(s)) => a.product_id == s@,
        _ => false,
    })
    &&& (match spec_get(entries, "product_type"@) {
        Option::Some(DataValue::Text(s)) => spec_product_type_of(ascii_upper(s@)) == Option::Some(
            a.product_type,
        ),
        _ => false,
    })
    &&& (match spec_get(entries, "properties"@) {
        Option::Some(DataValue::List(vs)) => represents_properties(vs@, a.properties),
        _ => false,
    })
}

/// Whether `a` is exactly the delete action the mapping describes.
pub open spec fn represents_delete(
    entries: Seq<(String, DataValue)>,
    a: ProductDeleteActionModel,
) -> bool {
    &&& (match spec_get(entries, "product_id"@) {
        Option::Some(DataValue::Text(s)) => a.product_id == s@,
        _ => false,
    })
    &&& (match spec_get(entries, "product_type"@) {
        Option::Some(DataValue::Text(s)) => spec_product_type_of(ascii_upper(s@)) == Option::Some(
            a.product_type,
        ),
        _ => false,
    })
}

/// Wraps a validated create action as a payload with the given timestamp.
/// Fails exactly when the product identifier or the owner is empty.
pub fn generate_create_product_payload(
    product_type: ProductType,
    product_id: &String,
    owner: &String,
    properties: Vec<PropertyValue>,
    timestamp: u64,
) -> (r: Result<ProductPayload, ParseError>)
    ensures
        (r is Ok) <==> (product_id@.len() > 0 && owner@.len() > 0),
        r matches Ok(p) ==> p@ == (ProductPayloadModel {
            action: ActionModel::ProductCreate(
                ProductCreateActionModel {
                    product_id: product_id@,
                    product_type,
                    owner: owner@,
                    properties: view_props(properties@),
                },
            ),
            timestamp,
        }),
{
    let action = match build_product_create_action(
        product_id.clone(),
        product_type,
        owner.clone(),
        properties,
    ) {
        Ok(a) => a,
        Err(_) => {
            return Err(
                ParseError::Payload(String::from_str("Failed to build product create payload")),
            );
        },
    };
    Ok(ProductPayload { action: Action::ProductCreate(action), timestamp })
}

/// Wraps a validated update action as a payload with the given timestamp.
/// Fails exactly when the product identifier is empty.
pub fn generate_update_product_payload(
    product_type: ProductType,
    product_id: &String,
    properties: Vec<PropertyValue>,
    timestamp: u64,
) -> (r: Result<ProductPayload, ParseError>)
    ensures
        (r is Ok) <==> product_id@.len() > 0,
        r matches Ok(p) ==> p@ == (ProductPayloadModel {
            action: ActionModel::ProductUpdate(
                ProductUpdateActionModel {
                    product_id: product_id@,
                    product_type,
                    properties: view_props(properties@),
                },
            ),
            timestamp,
        }),
{
    let action = match build_product_update_action(product_id.clone(), product_type, properties) {
        Ok(a) => a,
        Err(_) => {
            return Err(
                ParseError::Payload(String::from_str("Failed to build product update payload")),
            );
        },
    };
    Ok(ProductPayload { action: Action::ProductUpdate(action), timestamp })
}

/// Wraps a validated delete action as a payload with the given timestamp.
/// Fails exactly when the product identifier is empty.
pub fn generate_delete_product_payload(
    product_type: ProductType,
    product_id: &String,
    timestamp: u64,
) -> (r: Result<ProductPayload, ParseError>)
    ensures
        (r is Ok) <==> product_id@.len() > 0,
        r matches Ok(p) ==> p@ == (ProductPayloadModel {
            action: ActionModel::ProductDelete(
                ProductDeleteActionModel { product_id: product_id@, product_type },
            ),
            timestamp,
        }),
{
    let action = match build_product_delete_action(product_id.clone(), product_type) {
        Ok(a) => a,
        Err(_) => {
            return Err(
                ParseError::Payload(String::from_str("Failed to build product delete payload")),
            );
        },
    };
    Ok(ProductPayload { action: Action::ProductDelete(action), timestamp })
}

/// Whether `p` is the payload that one create document yields: the described
/// create action, with a non-empty identifier and owner, under the given
/// timestamp.
pub open spec fn create_payload_ok(
    entries: Seq<(String, DataValue)>,
    p: ProductPayloadModel,
    timestamp: u64,
) -> bool {
    &&& p.timestamp == timestamp
    &&& match p.action {
        ActionModel::ProductCreate(a) => represents_create(entries, a) && a.product_id.len() > 0
            && a.owner.len() > 0,
        _ => false,
    }
}

/// Whether `p` is the payload that one update document yields.
pub open spec fn update_payload_ok(
    entries: Seq<(String, DataValue)>,
    p: ProductPayloadModel,
    timestamp: u64,
) -> bool {
    &&& p.timestamp == timestamp
    &&& match p.action {
        ActionModel::ProductUpdate(a) => represents_update(entries, a) && a.product_id.len() > 0,
        _ => false,
    }
}

/// Whether `p` is the payload that one delete document yields.
pub open spec fn delete_payload_ok(
    entries: Seq<(String, DataValue)>,
    p: ProductPayloadModel,
    timestamp: u64,
) -> bool {
    &&& p.timestamp == timestamp
    &&& match p.action {
        ActionModel::ProductDelete(a) => represents_delete(entries, a) && a.product_id.len() > 0,
        _ => false,
    }
}

/// Interprets one product document as a create payload.
fn parse_create_product(m: &ValueMap, timestamp: u64) -> (r: Result<ProductPayload, ParseError>)
    ensures
        r matches Ok(p) ==> create_payload_ok(m.entries@, p@, timestamp),
        r is Err ==> !(exists|p: ProductPayloadModel| create_payload_ok(m.entries@, p, timestamp)),
{
    let ghost entries = m.entries@;
    let product_id = match parse_value_as_string(m, "product_id") {
        Ok(Some(s)) => s,
        Ok(None) => {
            return Err(
                ParseError::InvalidYaml(String::from_str("Missing `product_id` field for Product.")),
            );
        },
        Err(e) => {
            return Err(e);
        },
    };
    let pt_string = match parse_value_as_string(m, "product_type") {
        Ok(Some(s)) => s,
        Ok(None) => {
            return Err(
                ParseError::InvalidYaml(
                    String::from_str("Missing `product_type` field for property definition."),
                ),
            );
        },
        Err(e) => {
            return Err(e);
        },
    };
    let product_type = match parse_value_as_product_type(pt_string.as_str()) {
        Ok(t) => t,
        Err(e) => {
            return Err(e);
        },
    };
    let owner = match parse_value_as_string(m, "owner") {
        Ok(Some(s)) => s,
        Ok(None) => {
            return Err(
                ParseError::InvalidYaml(String::from_str("Missing `owner` field for Product.")),
            );
        },
        Err(e) => {
            return Err(e);
        },
    };
    let props_list = match parse_value_as_sequence(m, "properties") {
        Ok(Some(v)) => v,
        Ok(None) => {
            return Err(
                ParseError::InvalidYaml(String::from_str("Product is missing `properties` field.")),
            );
        },
        Err(e) => {
            return Err(e);
        },
    };
    let properties = match parse_value_as_properties(props_list) {
        Ok(pvs) => pvs,
        Err(e) => {
            proof {
                assert forall|p: ProductPayloadModel| !create_payload_ok(entries, p, timestamp) by {
                    if create_payload_ok(entries, p, timestamp) {
                        match p.action {
                            ActionModel::ProductCreate(a) => {
                                assert(represents_properties(props_list@, a.properties));
                            },
                            _ => {},
                        }
                    }
                }
            }
            return Err(e);
        },
    };
    generate_create_product_payload(product_type, &product_id, &owner, properties, timestamp)
}

/// Interprets one product document as an update payload.
fn parse_update_product(m: &ValueMap, timestamp: u64) -> (r: Result<ProductPayload, ParseError>)
    ensures
        r matches Ok(p) ==> update_payload_ok(m.entries@, p@, timestamp),
        r is Err ==> !(exists|p: ProductPayloadModel| update_payload_ok(m.entries@, p, timestamp)),
{
    let ghost entries = m.entries@;
    let product_id = match parse_value_as_string(m, "product_id") {
        Ok(Some(s)) => s,
        Ok(None) => {
            return Err(
                ParseError::InvalidYaml(String::from_str("Missing `product_id` field for Product.")),
            );
        },
        Err(e) => {
            return Err(e);
        },
    };
    let pt_string = match parse_value_as_string(m, "product_type") {
        Ok(Some(s)) => s,
        Ok(None) => {
            return Err(
                ParseError::InvalidYaml(
                    String::from_str("Missing `product_type` field for property definition."),
                ),
            );
        },
        Err(e) => {
            return Err(e);
        },
    };
    let product_type = match parse_value_as_product_type(pt_string.as_str()) {
        Ok(t) => t,
        Err(e) => {
            return Err(e);
        },
    };
    let props_list = match parse_value_as_sequence(m, "properties") {
        Ok(Some(v)) => v,
        Ok(None) => {
            return Err(
                ParseError::InvalidYaml(String::from_str("Product is missing `properties` field.")),
            );
        },
        Err(e) => {
            return Err(e);
        },
    };
    let properties = match parse_value_as_properties(props_list) {
        Ok(pvs) => pvs,
        Err(e) => {
            proof {
                assert forall|p: ProductPayloadModel| !update_payload_ok(entries, p, timestamp) by {
                    if update_payload_ok(entries, p, timestamp) {
                        match p.action {
                            ActionModel::ProductUpdate(a) => {
                                assert(represents_properties(props_list@, a.properties));
                            },
                            _ => {},
                        }
                    }
                }
            }
            return Err(e);
        },
    };
    generate_update_product_payload(product_type, &product_id, properties, timestamp)
}

/// Interprets one product document as a delete payload.
fn parse_delete_product(m: &ValueMap, timestamp: u64) -> (r: Result<ProductPayload, ParseError>)
    ensures
        r matches Ok(p) ==> delete_payload_ok(m.entries@, p@, timestamp),
        r is Err ==> !(exists|p: ProductPayloadModel| delete_payload_ok(m.entries@, p, timestamp)),
{
    let product_id = match parse_value_as_string(m, "product_id") {
        Ok(Some(s)) => s,
        Ok(None) => {
            return Err(
                ParseError::InvalidYaml(String::from_str("Missing `product_id` field for Product.")),
            );
        },
        Err(e) => {
            return Err(e);
        },
    };
    let pt_string = match parse_value_as_string(m, "product_type") {
        Ok(Some(s)) => s,
        Ok(None) => {
            return Err(
                ParseError::InvalidYaml(
                    String::from_str("Missing `product_type` field for property definition."),
                ),
            );
        },
        Err(e) => {
            return Err(e);
        },
    };
    let product_type = match parse_value_as_product_type(pt_string.as_str()) {
        Ok(t) => t,
        Err(e) => {
            return Err(e);
        },
    };
    generate_delete_product_payload(product_type, &product_id, timestamp)
}

/// Interprets a run of product documents as payloads of one action kind, in
/// document order, all under the given timestamp. The first document that
/// describes no payload aborts the whole run.
pub fn parse_product_definitions(
    products: &Vec<ValueMap>,
    action: ActionKind,
    timestamp: u64,
) -> (r: Result<Vec<ProductPayload>, ParseError>)
    ensures
        r matches Ok(ps) ==> ({
            &&& ps@.len() == products@.len()
            &&& forall|i: int|
                0 <= i < ps@.len() ==> (match action {
                    ActionKind::Create => create_payload_ok(
                        products@[i].entries@,
                        (#[trigger] ps@[i])@,
                        timestamp,
                    ),
                    ActionKind::Update => update_payload_ok(
                        products@[i].entries@,
                        ps@[i]@,
                        timestamp,
                    ),
                    ActionKind::Delete => delete_payload_ok(
                        products@[i].entries@,
                        ps@[i]@,
                        timestamp,
                    ),
                })
        }),
        r is Err ==> (exists|i: int|
            0 <= i < products@.len() && (match action {
                ActionKind::Create => !(exists|p: ProductPayloadModel|
                    create_payload_ok((#[trigger] products@[i]).entries@, p, timestamp)),
                ActionKind::Update => !(exists|p: ProductPayloadModel|
                    update_payload_ok(products@[i].entries@, p, timestamp)),
                ActionKind::Delete => !(exists|p: ProductPayloadModel|
                    delete_payload_ok(products@[i].entries@, p, timestamp)),
            })),
{
    let n = products.len();
    let mut out: Vec<ProductPayload> = Vec::new();
    let mut i: usize = 0;
    while i < n
        invariant
            i <= n,
            n == products@.len(),
            out@.len() == i,
            forall|j: int|
                0 <= j < i ==> (match action {
                    ActionKind::Create => create_payload_ok(
                        products@[j].entries@,
                        (#[trigger] out@[j])@,
                        timestamp,
                    ),
                    ActionKind::Update => update_payload_ok(
                        products@[j].entries@,
                        out@[j]@,
                        timestamp,
                    ),
                    ActionKind::Delete => delete_payload_ok(
                        products@[j].entries@,
                        out@[j]@,
                        timestamp,
                    ),
                }),
        decreases n - i,
    {
        let parsed = match action {
            ActionKind::Create => parse_create_product(&products[i], timestamp),
            ActionKind::Update => parse_update_product(&products[i], timestamp),
            ActionKind::Delete => parse_delete_product(&products[i], timestamp),
        };
        let payload = match parsed {
            Ok(p) => p,
            Err(e) => {
                return Err(e);
            },
        };
        out.push(payload);
        i = i + 1;
    }
    Ok(out)
}

} // verus!
