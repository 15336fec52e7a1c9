use vstd::prelude::*;
use vstd::utf8::*;
use vstd::string::*;
use vstd::slice::slice_to_vec;

verus! {

/// A 64-bit IEEE-754 float, held as its bit pattern.
///
/// Equality and hashing both go by the bit pattern: two reals are equal exactly
/// when their bits are, so `0.0` and `-0.0` differ and a NaN equals itself.
#[derive(Debug, Clone, Copy, PartialEq, Eq, Structural, Hash, Default)]
pub struct Real(pub u64);

/// Sign bit of a float's bit pattern.
pub open spec fn sign_bit(bits: u64) -> u64 {
    bits >> 63
}

/// Biased exponent field (11 bits) of a float's bit pattern.
pub open spec fn biased_exponent(bits: u64) -> u64 {
    (bits >> 52) & 0x7ff
}

/// Fraction field (52 bits) of a float's bit pattern.
pub open spec fn fraction(bits: u64) -> u64 {
    bits & 0xfffffffffffff
}

/// Integer mantissa: the fraction with its implicit leading bit, or, for a
/// subnormal, the fraction shifted left by one.
pub open spec fn mantissa_of(bits: u64) -> u64 {
    if biased_exponent(bits) == 0 {
        fraction(bits) << 1
    } else {
        fraction(bits) | 0x10000000000000
    }
}

/// The `(mantissa, exponent, sign)` decomposition of a float's bit pattern,
/// with `value == sign * mantissa * 2^exponent` for finite values.
pub open spec fn float_parts(bits: u64) -> (u64, int, int) {
    (
        mantissa_of(bits),
        biased_exponent(bits) as int - 1075,
        if sign_bit(bits) == 0 { 1 } else { -1 },
    )
}

/// Decomposes a float's bit pattern into mantissa, exponent and sign.
pub fn integer_decode(bits: u64) -> (r: (u64, i16, i8))
    ensures
        (r.0, r.1 as int, r.2 as int) == float_parts(bits),
{
    let sign: i8 = if bits >> 63 == 0 { 1 } else { -1 };
    let biased: u64 = (bits >> 52) & 0x7ff;
    assert(biased <= 0x7ff) by (bit_vector)
        requires biased == (bits >> 52) & 0x7ff;
    let exponent: i16 = biased as i16 - 1075;
    let mantissa: u64 = if biased == 0 {
        (bits & 0xfffffffffffff) << 1
    } else {
        (bits & 0xfffffffffffff) | 0x10000000000000
    };
    (mantissa, exponent, sign)
}

proof fn lemma_fields_determine_bits(a: u64, b: u64)
    by (bit_vector)
    requires
        a >> 63 == b >> 63,
        (a >> 52) & 0x7ff == (b >> 52) & 0x7ff,
        a & 0xfffffffffffff == b & 0xfffffffffffff,
    ensures
        a == b,
{
}

proof fn lemma_mantissa_determines_fraction(a: u64, b: u64)
    by (bit_vector)
    requires
        (a >> 52) & 0x7ff == (b >> 52) & 0x7ff,
        ((a >> 52) & 0x7ff == 0) ==> ((a & 0xfffffffffffff) << 1) == ((b & 0xfffffffffffff) << 1),
        ((a >> 52) & 0x7ff != 0) ==> ((a & 0xfffffffffffff) | 0x10000000000000) == ((b
            & 0xfffffffffffff) | 0x10000000000000),
    ensures
        a & 0xfffffffffffff == b & 0xfffffffffffff,
{
}

proof fn lemma_sign_bit_range(a: u64)
    by (bit_vector)
    ensures
        a >> 63 == 0 || a >> 63 == 1,
{
}

impl Real {
    /// The decomposition that identifies this real for hashing.
    pub open spec fn hash_key(self) -> (u64, int, int) {
        float_parts(self.0)
    }

    /// Decomposes this real into `(mantissa, exponent, sign)`.
    pub fn integer_decode(&self) -> (r: (u64, i16, i8))
        ensures
            (r.0, r.1 as int, r.2 as int) == self.hash_key(),
    {
        integer_decode(self.0)
    }
}

/// Two reals have the same hash decomposition exactly when they are equal, so
/// hashing through the decomposition agrees with `==`.
pub proof fn lemma_hash_key_agrees_with_eq(a: Real, b: Real)
    ensures
        (a.hash_key() == b.hash_key()) <==> (a == b),
{
    if a.hash_key() == b.hash_key() {
        lemma_sign_bit_range(a.0);
        lemma_sign_bit_range(b.0);
        lemma_mantissa_determines_fraction(a.0, b.0);
        lemma_fields_determine_bits(a.0, b.0);
    }
}

/// The storage class of a value. Each class has a fixed numeric code that is
/// part of the storage contract: Integer 1, Float 2, Text 3, Blob 4, Null 5.
#[derive(Debug, Clone, Copy, PartialEq, Eq, Structural)]
pub enum ColumnType {
    Integer,
    Float,
    Text,
    Blob,
    Null,
}

impl ColumnType {
    /// The fixed numeric code of a column type.
    pub open spec fn spec_code(self) -> u8 {
        match self {
            ColumnType::Integer => 1,
            ColumnType::Float => 2,
            ColumnType::Text => 3,
            ColumnType::Blob => 4,
            ColumnType::Null => 5,
        }
    }

    /// Returns the fixed numeric code of this column type.
    pub fn code(&self) -> (r: u8)
        ensures
            r == self.spec_code(),
    {
        match self {
            ColumnType::Integer => 1,
            ColumnType::Float => 2,
            ColumnType::Text => 3,
            ColumnType::Blob => 4,
            ColumnType::Null => 5,
        }
    }

    /// Looks a column type up by its numeric code.
    pub fn from_u8(u: u8) -> (r: Option<ColumnType>)
        ensures
            r is Some <==> 1 <= u <= 5,
            r matches Some(t) ==> t.spec_code() == u,
    {
        match u {
            1 => Some(ColumnType::Integer),
            2 => Some(ColumnType::Float),
            3 => Some(ColumnType::Text),
            4 => Some(ColumnType::Blob),
            5 => Some(ColumnType::Null),
            _ => None,
        }
    }

    /// The column type that a declared SQL type name stands for, if it is one
    /// of the four known names (matched exactly).
    pub open spec fn spec_from_sqlite_name(s: Seq<char>) -> Option<ColumnType> {
        if s == "INTEGER"@ {
            Some(ColumnType::Integer)
        } else if s == "REAL"@ {
            Some(ColumnType::Float)
        } else if s == "TEXT"@ {
            Some(ColumnType::Text)
        } else if s == "BLOB"@ {
            Some(ColumnType::Blob)
        } else {
            None
        }
    }

    /// Maps a declared SQL type name (`INTEGER`, `REAL`, `TEXT`, `BLOB`) to its
    /// column type; any other name gives `None`.
    pub fn from_sqlite_name(s: &str) -> (r: Option<ColumnType>)
        ensures
            r == Self::spec_from_sqlite_name(s@),
    {
        if str_eq(s, "INTEGER") {
            Some(ColumnType::Integer)
        } else if str_eq(s, "REAL") {
            Some(ColumnType::Float)
        } else if str_eq(s, "TEXT") {
            Some(ColumnType::Text)
        } else if str_eq(s, "BLOB") {
            Some(ColumnType::Blob)
        } else {
            None
        }
    }
}

/// Every value has exactly one storage class, whose code is the fixed one for
/// its variant, and looking that code up gives the class back.
pub proof fn lemma_column_type_total(v: ValueModel)
    ensures
        1 <= v.column_type().spec_code() <= 5,
        v is Null ==> v.column_type().spec_code() == 5,
        v is Integer ==> v.column_type().spec_code() == 1,
        v is Real ==> v.column_type().spec_code() == 2,
        v is Text ==> v.column_type().spec_code() == 3,
        v is Blob ==> v.column_type().spec_code() == 4,
        forall|t: ColumnType| #[trigger] t.spec_code() == v.column_type().spec_code() ==> t == v.column_type(),
{
}

/// Compares two strings character by character.
pub fn str_eq(a: &str, b: &str) -> (r: bool)
    ensures
        r == (a@ == b@),
{
    let x = a.as_bytes();
    let y = b.as_bytes();
    proof {
        encode_utf8_decode_utf8(a@);
        encode_utf8_decode_utf8(b@);
        assert(x@ == encode_utf8(a@));
        assert(y@ == encode_utf8(b@));
    }
    if x.len() != y.len() {
        return false;
    }
    let mut i: usize = 0;
    while i < x.len()
        invariant
            x.len() == y.len(),
            x@ == encode_utf8(a@),
            y@ == encode_utf8(b@),
            0 <= i <= x.len(),
            forall|j: int| 0 <= j < i ==> x@[j] == y@[j],
        decreases x.len() - i,
    {
        if x[i] != y[i] {
            assert(x@[i as int] != y@[i as int]);
            assert(x@ != y@);
            return false;
        }
        i = i + 1;
    }
    assert(x@ =~= y@);
    true
}


/// Compares two byte slices element by element.
pub fn bytes_eq(a: &[u8], b: &[u8]) -> (r: bool)
    ensures
        r == (a@ == b@),
{
    if a.len() != b.len() {
        return false;
    }
    let mut i: usize = 0;
    while i < a.len()
        invariant
            a.len() == b.len(),
            0 <= i <= a.len(),
            forall|j: int| 0 <= j < i ==> a@[j] == b@[j],
        decreases a.len() - i,
    {
        if a[i] != b[i] {
            assert(a@[i as int] != b@[i as int]);
            return false;
        }
        i = i + 1;
    }
    assert(a@ =~= b@);
    true
}

/// What a value is, independent of how its text or bytes are stored.
pub ghost enum ValueModel {
    Null,
    Integer(i64),
    Real(u64),
    Text(Seq<char>),
    Blob(Seq<u8>),
}

/// Number of bytes that the UTF-8 encoding of a text takes.
pub open spec fn utf8_len(s: Seq<char>) -> nat {
    encode_utf8(s).len()
}

impl ValueModel {
    /// The storage class of a value.
    pub open spec fn column_type(self) -> ColumnType {
        match self {
            ValueModel::Null => ColumnType::Null,
            ValueModel::Integer(_) => ColumnType::Integer,
            ValueModel::Real(_) => ColumnType::Float,
            ValueModel::Text(_) => ColumnType::Text,
            ValueModel::Blob(_) => ColumnType::Blob,
        }
    }

    /// The size estimate of a value: a tag byte plus its payload, with a
    /// length prefix for text and blobs (and one byte for null).
    pub open spec fn estimated_size(self) -> nat {
        1 + match self {
            ValueModel::Null => 1nat,
            ValueModel::Integer(_) => 8nat,
            ValueModel::Real(_) => 8nat,
            ValueModel::Text(s) => 4 + utf8_len(s),
            ValueModel::Blob(b) => 4 + b.len(),
        }
    }
}

/// One column's value, owning its text or bytes.
#[derive(Debug, Clone, Hash)]
pub enum SqliteValue {
    Null,
    Integer(i64),
    Real(Real),
    Text(String),
    Blob(Vec<u8>),
}

impl View for SqliteValue {
    type V = ValueModel;

    open spec fn view(&self) -> ValueModel {
        match self {
            SqliteValue::Null => ValueModel::Null,
            SqliteValue::Integer(i) => ValueModel::Integer(*i),
            SqliteValue::Real(r) => ValueModel::Real(r.0),
            SqliteValue::Text(s) => ValueModel::Text(s@),
            SqliteValue::Blob(b) => ValueModel::Blob(b@),
        }
    }
}

impl PartialEq for SqliteValue {
    fn eq(&self, other: &SqliteValue) -> (r: bool) {
        match (self, other) {
            (SqliteValue::Null, SqliteValue::Null) => true,
            (SqliteValue::Integer(a), SqliteValue::Integer(b)) => *a == *b,
            (SqliteValue::Real(a), SqliteValue::Real(b)) => a.0 == b.0,
            (SqliteValue::Text(a), SqliteValue::Text(b)) => str_eq(a.as_str(), b.as_str()),
            (SqliteValue::Blob(a), SqliteValue::Blob(b)) => bytes_eq(a.as_slice(), b.as_slice()),
            _ => false,
        }
    }
}

impl vstd::std_specs::cmp::PartialEqSpecImpl for SqliteValue {
    open spec fn obeys_eq_spec() -> bool {
        true
    }

    open spec fn eq_spec(&self, other: &SqliteValue) -> bool {
        self@ == other@
    }
}

impl Default for SqliteValue {
    fn default() -> (r: SqliteValue)
        ensures
            r@ == ValueModel::Null,
    {
        SqliteValue::Null
    }
}

impl SqliteValue {
    /// The storage class of this value.
    pub fn column_type(&self) -> (r: ColumnType)
        ensures
            r == self@.column_type(),
    {
        match self {
            SqliteValue::Null => ColumnType::Null,
            SqliteValue::Integer(_) => ColumnType::Integer,
            SqliteValue::Real(_) => ColumnType::Float,
            SqliteValue::Text(_) => ColumnType::Text,
            SqliteValue::Blob(_) => ColumnType::Blob,
        }
    }

    /// The text of a `Text` value.
    pub fn as_str(&self) -> (r: Option<&str>)
        ensures
            r is Some <==> self@ is Text,
            r matches Some(t) ==> self@ == ValueModel::Text(t@),
    {
        if let SqliteValue::Text(s) = self {
            Some(s.as_str())
        } else {
            None
        }
    }

    /// Whether this is the null value.
    pub fn is_null(&self) -> (r: bool)
        ensures
            r == (self@ is Null),
    {
        matches!(self, SqliteValue::Null)
    }

    /// The integer of an `Integer` value.
    pub fn as_integer(&self) -> (r: Option<&i64>)
        ensures
            r is Some <==> self@ is Integer,
            r matches Some(i) ==> self@ == ValueModel::Integer(*i),
    {
        match self {
            SqliteValue::Integer(i) => Some(i),
            _ => None,
        }
    }

    /// The float of a `Real` value.
    pub fn as_real(&self) -> (r: Option<&Real>)
        ensures
            r is Some <==> self@ is Real,
            r matches Some(f) ==> self@ == ValueModel::Real(f.0),
    {
        match self {
            SqliteValue::Real(f) => Some(f),
            _ => None,
        }
    }

    /// The text of a `Text` value.
    pub fn as_text(&self) -> (r: Option<&str>)
        ensures
            r is Some <==> self@ is Text,
            r matches Some(t) ==> self@ == ValueModel::Text(t@),
    {
        match self {
            SqliteValue::Text(s) => Some(s.as_str()),
            _ => None,
        }
    }

    /// The bytes of a `Blob` value.
    pub fn as_blob(&self) -> (r: Option<&[u8]>)
        ensures
            r is Some <==> self@ is Blob,
            r matches Some(b) ==> self@ == ValueModel::Blob(b@),
    {
        match self {
            SqliteValue::Blob(b) => Some(b.as_slice()),
            _ => None,
        }
    }

    /// A borrowed view of this value; nothing is copied.
    pub fn as_ref(&self) -> (r: SqliteValueRef<'_>)
        ensures
            r@ == self@,
    {
        match self {
            SqliteValue::Null => SqliteValueRef::Null,
            SqliteValue::Integer(i) => SqliteValueRef::Integer(*i),
            SqliteValue::Real(r) => SqliteValueRef::Real(*r),
            SqliteValue::Text(s) => SqliteValueRef::Text(s.as_str()),
            SqliteValue::Blob(v) => SqliteValueRef::Blob(v.as_slice()),
        }
    }

    /// A rough count of the bytes this value takes on the wire.
    pub fn estimated_byte_size(&self) -> (r: usize)
        requires
            self@.estimated_size() <= usize::MAX,
        ensures
            r == self@.estimated_size(),
    {
        1 + match self {
            SqliteValue::Null => 1,
            SqliteValue::Integer(_) => 8,
            SqliteValue::Real(_) => 8,
            SqliteValue::Text(t) => 4 + t.as_str().as_bytes().len(),
            SqliteValue::Blob(v) => 4 + v.len(),
        }
    }
}

/// One column's value, borrowing its text or bytes from elsewhere.
#[derive(Debug, Clone)]
pub enum SqliteValueRef<'a> {
    Null,
    Integer(i64),
    Real(Real),
    Text(&'a str),
    Blob(&'a [u8]),
}

impl<'a> View for SqliteValueRef<'a> {
    type V = ValueModel;

    open spec fn view(&self) -> ValueModel {
        match self {
            SqliteValueRef::Null => ValueModel::Null,
            SqliteValueRef::Integer(i) => ValueModel::Integer(*i),
            SqliteValueRef::Real(r) => ValueModel::Real(r.0),
            SqliteValueRef::Text(s) => ValueModel::Text(s@),
            SqliteValueRef::Blob(b) => ValueModel::Blob(b@),
        }
    }
}

impl<'a> PartialEq for SqliteValueRef<'a> {
    fn eq(&self, other: &SqliteValueRef<'a>) -> (r: bool) {
        match (self, other) {
            (SqliteValueRef::Null, SqliteValueRef::Null) => true,
            (SqliteValueRef::Integer(a), SqliteValueRef::Integer(b)) => *a == *b,
            (SqliteValueRef::Real(a), SqliteValueRef::Real(b)) => a.0 == b.0,
            (SqliteValueRef::Text(a), SqliteValueRef::Text(b)) => str_eq(a, b),
            (SqliteValueRef::Blob(a), SqliteValueRef::Blob(b)) => bytes_eq(a, b),
            _ => false,
        }
    }
}

impl<'a> vstd::std_specs::cmp::PartialEqSpecImpl for SqliteValueRef<'a> {
    open spec fn obeys_eq_spec() -> bool {
        true
    }

    open spec fn eq_spec(&self, other: &SqliteValueRef<'a>) -> bool {
        self@ == other@
    }
}

impl<'a> SqliteValueRef<'a> {
    /// Whether this is the null value.
    pub fn is_null(&self) -> (r: bool)
        ensures
            r == (self@ is Null),
    {
        matches!(self, SqliteValueRef::Null)
    }

    /// The integer of an `Integer` value.
    pub fn as_integer(&self) -> (r: Option<&i64>)
        ensures
            r is Some <==> self@ is Integer,
            r matches Some(i) ==> self@ == ValueModel::Integer(*i),
    {
        match self {
            SqliteValueRef::Integer(i) => Some(i),
            _ => None,
        }
    }

    /// The float of a `Real` value.
    pub fn as_real(&self) -> (r: Option<&Real>)
        ensures
            r is Some <==> self@ is Real,
            r matches Some(f) ==> self@ == ValueModel::Real(f.0),
    {
        match self {
            SqliteValueRef::Real(f) => Some(f),
            _ => None,
        }
    }

    /// The text of a `Text` value.
    pub fn as_text(&self) -> (r: Option<&str>)
        ensures
            r is Some <==> self@ is Text,
            r matches Some(t) ==> self@ == ValueModel::Text(t@),
    {
        match self {
            SqliteValueRef::Text(s) => Some(*s),
            _ => None,
        }
    }

    /// The bytes of a `Blob` value.
    pub fn as_blob(&self) -> (r: Option<&[u8]>)
        ensures
            r is Some <==> self@ is Blob,
            r matches Some(b) ==> self@ == ValueModel::Blob(b@),
    {
        match self {
            SqliteValueRef::Blob(b) => Some(*b),
            _ => None,
        }
    }

    /// Copies the borrowed text or bytes into an owned value. This is the one
    /// place where a borrowed value is copied.
    pub fn to_owned(&self) -> (r: SqliteValue)
        ensures
            r@ == self@,
    {
        match self {
            SqliteValueRef::Null => SqliteValue::Null,
            SqliteValueRef::Integer(v) => SqliteValue::Integer(*v),
            SqliteValueRef::Real(v) => SqliteValue::Real(*v),
            SqliteValueRef::Text(v) => SqliteValue::Text(String::from_str(v)),
            SqliteValueRef::Blob(v) => SqliteValue::Blob(slice_to_vec(v)),
        }
    }
}


/// The character of a decimal digit.
pub open spec fn digit_char(d: nat) -> char {
    ((48 + d) as u8) as char
}

/// Decimal digits of a natural number, most significant first.
pub open spec fn decimal_digits(n: nat) -> Seq<char>
    decreases n,
{
    if n < 10 {
        seq![digit_char(n)]
    } else {
        decimal_digits(n / 10).push(digit_char(n % 10))
    }
}

/// Decimal text of an integer, with a leading `-` when it is negative.
pub open spec fn decimal_text(i: int) -> Seq<char> {
    if i < 0 {
        seq!['-'] + decimal_digits((-i) as nat)
    } else {
        decimal_digits(i as nat)
    }
}

/// The lowercase hexadecimal digit of a number below 16.
pub open spec fn hex_digit(n: u8) -> char {
    if n < 10 {
        ((48 + n) as u8) as char
    } else {
        ((87 + n) as u8) as char
    }
}

/// Two lowercase hexadecimal digits per byte, high half first.
pub open spec fn hex_lower(b: Seq<u8>) -> Seq<char>
    decreases b.len(),
{
    if b.len() == 0 {
        seq![]
    } else {
        seq![hex_digit(b[0] / 16), hex_digit(b[0] % 16)] + hex_lower(b.drop_first())
    }
}

/// Text of a value for embedding in SQL: empty for null, decimal for an
/// integer, the text itself, or `x'<hex>'` for a blob. A real has no text
/// here: its decimal form is float formatting.
pub open spec fn sql_text(v: ValueModel) -> Option<Seq<char>> {
    match v {
        ValueModel::Null => Some(Seq::empty()),
        ValueModel::Integer(i) => Some(decimal_text(i as int)),
        ValueModel::Real(_) => None,
        ValueModel::Text(s) => Some(s),
        ValueModel::Blob(b) => Some(seq!['x', '\''] + hex_lower(b) + seq!['\'']),
    }
}

/// Relies on hex::encode: two lowercase hexadecimal digits for each byte,
/// high half first.
#[verifier::external_body]
fn hex_encode(b: &[u8]) -> (r: String)
    ensures
        r@ == hex_lower(b@),
{
    hex::encode(b)
}

/// Relies on the standard decimal `Display` of `i64`, through `to_string`.
#[verifier::external_body]
fn i64_text(i: i64) -> (r: String)
    ensures
        r@ == decimal_text(i as int),
{
    i.to_string()
}

impl SqliteValue {
    /// Text of this value for embedding in SQL; `None` for a real.
    pub fn to_sql_text(&self) -> (r: Option<String>)
        ensures
            r is Some <==> sql_text(self@) is Some,
            r matches Some(t) ==> sql_text(self@) == Some(t@),
    {
        match self {
            SqliteValue::Null => Some(String::new()),
            SqliteValue::Integer(i) => Some(i64_text(*i)),
            SqliteValue::Real(_) => None,
            SqliteValue::Text(s) => Some(s.clone()),
            SqliteValue::Blob(b) => {
                let hex = hex_encode(b.as_slice());
                let mut out = String::from_str("x'");
                out.append(hex.as_str());
                out.append("'");
                proof {
                    reveal_strlit("x'");
                    reveal_strlit("'");
                }
                assert(out@ =~= seq!['x', '\''] + hex_lower(b@) + seq!['\'']);
                Some(out)
            },
        }
    }
}

impl From<String> for SqliteValue {
    fn from(value: String) -> SqliteValue {
        SqliteValue::Text(value)
    }
}

impl vstd::std_specs::convert::FromSpecImpl<String> for SqliteValue {
    open spec fn obeys_from_spec() -> bool {
        true
    }

    open spec fn from_spec(v: String) -> SqliteValue {
        SqliteValue::Text(v)
    }
}

impl From<Vec<u8>> for SqliteValue {
    fn from(value: Vec<u8>) -> SqliteValue {
        SqliteValue::Blob(value)
    }
}

impl vstd::std_specs::convert::FromSpecImpl<Vec<u8>> for SqliteValue {
    open spec fn obeys_from_spec() -> bool {
        true
    }

    open spec fn from_spec(v: Vec<u8>) -> SqliteValue {
        SqliteValue::Blob(v)
    }
}

impl From<u16> for SqliteValue {
    fn from(value: u16) -> SqliteValue {
        SqliteValue::Integer(value as i64)
    }
}

impl vstd::std_specs::convert::FromSpecImpl<u16> for SqliteValue {
    open spec fn obeys_from_spec() -> bool {
        true
    }

    open spec fn from_spec(v: u16) -> SqliteValue {
        SqliteValue::Integer(v as i64)
    }
}

impl From<i64> for SqliteValue {
    fn from(value: i64) -> SqliteValue {
        SqliteValue::Integer(value)
    }
}

impl vstd::std_specs::convert::FromSpecImpl<i64> for SqliteValue {
    open spec fn obeys_from_spec() -> bool {
        true
    }

    open spec fn from_spec(v: i64) -> SqliteValue {
        SqliteValue::Integer(v)
    }
}

} // verus!
