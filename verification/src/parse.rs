//! Text parsing of coordinate pairs and integers.
//!
//! The accepted coordinate grammar is an optional sign, decimal digits, and
//! an optional dot followed by more digits, with at least one digit in all
//! and ASCII whitespace tolerated around the number. The value is read
//! exactly into fixed point (millionths of a unit); fractional digits past
//! the sixth are ignored, and a magnitude above [`COORD_LIMIT`] millionths
//! is rejected as out of range. A point is two such coordinates joined by a
//! single comma, with whitespace tolerated around the whole pair and around
//! each field. Every failure is a returned value, never a panic.

use vstd::prelude::*;
use vstd::string::StrSliceExecFns;
use vstd::string::StringExecFns;
use crate::geometry::Point;
use crate::geometry::dist2;
use crate::geometry::dist2_xy;
use crate::geometry::sq;

verus! {

/// The largest coordinate magnitude the numeric parser accepts, counted in
/// millionths of a unit (so two million million units).
pub const COORD_LIMIT: i64 = 2_000_000_000_000_000_000;

/// ASCII whitespace: space, tab, line feed and carriage return.
pub open spec fn is_space_char(c: char) -> bool {
    c == ' ' || c == '\t' || c == '\n' || c == '\r'
}

/// A decimal digit.
pub open spec fn is_digit_char(c: char) -> bool {
    48 <= (c as u32) <= 57
}

/// The numeric value of a decimal digit.
pub open spec fn digit_val(c: char) -> int {
    (c as u32) - 48
}

/// The first index at or after `i` holding a non-whitespace character,
/// or the length when there is none.
pub open spec fn ws_start(s: Seq<char>, i: int) -> int
    decreases s.len() - i,
{
    if i < 0 || i >= s.len() {
        s.len() as int
    } else if is_space_char(s[i]) {
        ws_start(s, i + 1)
    } else {
        i
    }
}

/// One past the last non-whitespace character strictly before index `j`,
/// or zero when there is none.
pub open spec fn ws_end(s: Seq<char>, j: int) -> int
    decreases j,
{
    if j <= 0 {
        0
    } else if 0 <= j - 1 < s.len() && is_space_char(s[j - 1]) {
        ws_end(s, j - 1)
    } else {
        j
    }
}

/// The view of a string with leading and trailing whitespace removed.
pub open spec fn trimmed_view(s: Seq<char>) -> Seq<char> {
    let a = ws_start(s, 0);
    let b = ws_end(s, s.len() as int);
    if a <= b {
        s.subrange(a, b)
    } else {
        Seq::empty()
    }
}

/// How many occurrences of `c` appear at or after index `i`.
pub open spec fn count_ch_from(s: Seq<char>, c: char, i: int) -> int
    decreases s.len() - i,
{
    if i < 0 || i >= s.len() {
        0
    } else {
        (if s[i] == c {
            1int
        } else {
            0int
        }) + count_ch_from(s, c, i + 1)
    }
}

/// The first index at or after `i` holding `c`, or the length when
/// there is none.
pub open spec fn find_ch_from(s: Seq<char>, c: char, i: int) -> int
    decreases s.len() - i,
{
    if i < 0 || i >= s.len() {
        s.len() as int
    } else if s[i] == c {
        i
    } else {
        find_ch_from(s, c, i + 1)
    }
}

/// Whether every character is a decimal digit.
pub open spec fn all_digits(s: Seq<char>) -> bool {
    forall|i: int| 0 <= i < s.len() ==> is_digit_char(#[trigger] s[i])
}

/// The value of a string of decimal digits, most significant first.
pub open spec fn digits_val(s: Seq<char>) -> int
    decreases s.len(),
{
    if s.len() == 0 {
        0
    } else {
        digits_val(s.drop_last()) * 10 + digit_val(s.last())
    }
}

/// Ten to the power `n`.
pub open spec fn pow10(n: nat) -> int
    decreases n,
{
    if n == 0 {
        1
    } else {
        10 * pow10((n - 1) as nat)
    }
}

/// The length of the sign prefix of a trimmed number: one when the text
/// starts with `+` or `-`, zero otherwise.
pub open spec fn sign_split(t: Seq<char>) -> int {
    if t.len() > 0 && (t[0] == '+' || t[0] == '-') {
        1
    } else {
        0
    }
}

/// The sign factor of a trimmed number: minus one under a leading `-`.
pub open spec fn sign_mul(t: Seq<char>) -> int {
    if t.len() > 0 && t[0] == '-' {
        -1
    } else {
        1
    }
}

/// The digits-and-dot part of a trimmed number, after the sign.
pub open spec fn number_body(t: Seq<char>) -> Seq<char> {
    t.subrange(sign_split(t), t.len() as int)
}

/// The digits before the dot (all of the body when there is no dot).
pub open spec fn int_digits(b: Seq<char>) -> Seq<char> {
    b.subrange(0, find_ch_from(b, '.', 0))
}

/// The digits after the dot (empty when there is no dot).
pub open spec fn frac_digits(b: Seq<char>) -> Seq<char> {
    if find_ch_from(b, '.', 0) < b.len() {
        b.subrange(find_ch_from(b, '.', 0) + 1, b.len() as int)
    } else {
        Seq::empty()
    }
}

/// Whether a number body follows the grammar: at most one dot, digits
/// everywhere else, and at least one digit in all.
pub open spec fn number_wellformed(b: Seq<char>) -> bool {
    &&& count_ch_from(b, '.', 0) <= 1
    &&& all_digits(int_digits(b))
    &&& all_digits(frac_digits(b))
    &&& int_digits(b).len() + frac_digits(b).len() >= 1
}

/// The value of a fractional digit string in millionths, ignoring digits
/// past the sixth.
pub open spec fn frac_scaled(f: Seq<char>) -> int {
    if f.len() >= 6 {
        digits_val(f.subrange(0, 6))
    } else {
        digits_val(f) * pow10((6 - f.len()) as nat)
    }
}

/// The magnitude of a number body in millionths of a unit.
pub open spec fn number_magnitude(b: Seq<char>) -> int {
    digits_val(int_digits(b)) * 1_000_000 + frac_scaled(frac_digits(b))
}

/// The signed value of a trimmed number in millionths of a unit.
pub open spec fn coord_val(t: Seq<char>) -> int {
    sign_mul(t) * number_magnitude(number_body(t))
}

/// Why a numeric field failed to parse.
#[derive(Clone, Copy, PartialEq, Eq, Structural, Debug)]
pub enum NumError {
    /// The text does not follow the number grammar.
    Malformed,
    /// The text is a well-formed number of too large a magnitude.
    OutOfRange,
}

/// What parsing a coordinate field yields: the exact fixed-point value of
/// the trimmed text, or the error the text deserves.
pub open spec fn coord_result(s: Seq<char>) -> Result<int, NumError> {
    let t = trimmed_view(s);
    if !number_wellformed(number_body(t)) {
        Result::Err(NumError::Malformed)
    } else if coord_val(t) > COORD_LIMIT || coord_val(t) < -COORD_LIMIT {
        Result::Err(NumError::OutOfRange)
    } else {
        Result::Ok(coord_val(t))
    }
}

/// What parsing a 32-bit integer yields: an optional sign and digits only,
/// whitespace trimmed, rejecting values outside the `i32` range.
pub open spec fn i32_result(s: Seq<char>) -> Result<int, NumError> {
    let t = trimmed_view(s);
    let b = number_body(t);
    if !(all_digits(b) && b.len() >= 1) {
        Result::Err(NumError::Malformed)
    } else if sign_mul(t) * digits_val(b) < i32::MIN || sign_mul(t) * digits_val(b) > i32::MAX {
        Result::Err(NumError::OutOfRange)
    } else {
        Result::Ok(sign_mul(t) * digits_val(b))
    }
}

/// Whether the character is ASCII whitespace.
fn space_char(c: char) -> (r: bool)
    ensures
        r == is_space_char(c),
{
    c == ' ' || c == '\t' || c == '\n' || c == '\r'
}

/// Whether the character is a decimal digit.
fn digit_char(c: char) -> (r: bool)
    ensures
        r == is_digit_char(c),
{
    let v: u32 = c as u32;
    48 <= v && v <= 57
}

/// The bounds of the text of `s` with surrounding whitespace removed: the
/// trimmed text is `s@.subrange(r.0, r.1)` whenever `r.0 <= r.1`.
fn trim_bounds(s: &str) -> (r: (usize, usize))
    ensures
        r.0 <= s@.len(),
        r.1 <= s@.len(),
        r.0 <= r.1 ==> trimmed_view(s@) == s@.subrange(r.0 as int, r.1 as int),
        r.0 > r.1 ==> trimmed_view(s@) == Seq::<char>::empty(),
{
    let n: usize = s.unicode_len();
    let mut a: usize = 0;
    while a < n && space_char(s.get_char(a))
        invariant
            n == s@.len(),
            a <= n,
            ws_start(s@, 0) == ws_start(s@, a as int),
        decreases n - a,
    {
        a = a + 1;
    }
    let mut b: usize = n;
    while b > 0 && space_char(s.get_char(b - 1))
        invariant
            n == s@.len(),
            b <= n,
            ws_end(s@, n as int) == ws_end(s@, b as int),
        decreases b,
    {
        b = b - 1;
    }
    proof {
        assert(ws_start(s@, a as int) == a);
        assert(ws_end(s@, b as int) == b);
    }
    (a, b)
}

/// Counts the occurrences of `c` in `s@.subrange(from, to)` and locates the
/// first one, as an absolute index (`to` when there is none).
fn scan_char(s: &str, from: usize, to: usize, c: char) -> (r: (usize, usize))
    requires
        from <= to <= s@.len(),
    ensures
        ({
            let seg = s@.subrange(from as int, to as int);
            &&& r.0 == count_ch_from(seg, c, 0)
            &&& from <= r.1 <= to
            &&& (count_ch_from(seg, c, 0) == 0 ==> r.1 == to && find_ch_from(seg, c, 0)
                == seg.len())
            &&& (count_ch_from(seg, c, 0) > 0 ==> r.1 < to && r.1 - from == find_ch_from(
                seg,
                c,
                0,
            ))
        }),
{
    let ghost seg = s@.subrange(from as int, to as int);
    let mut cnt: usize = 0;
    let mut fpos: usize = to;
    let mut i: usize = from;
    while i < to
        invariant
            from <= i <= to <= s@.len(),
            seg == s@.subrange(from as int, to as int),
            cnt <= i - from,
            count_ch_from(seg, c, 0) == cnt + count_ch_from(seg, c, i - from),
            cnt == 0 ==> fpos == to && find_ch_from(seg, c, 0) == find_ch_from(seg, c, i - from),
            cnt > 0 ==> from <= fpos < i && fpos - from == find_ch_from(seg, c, 0),
        decreases to - i,
    {
        let ch = s.get_char(i);
        proof {
            assert(seg[i - from] == s@[i as int]);
        }
        if ch == c {
            if cnt == 0 {
                fpos = i;
            }
            cnt = cnt + 1;
        }
        i = i + 1;
    }
    (cnt, fpos)
}

/// Whether `s@.subrange(from, to)` consists of decimal digits only.
fn check_digits(s: &str, from: usize, to: usize) -> (r: bool)
    requires
        from <= to <= s@.len(),
    ensures
        r == all_digits(s@.subrange(from as int, to as int)),
{
    let ghost seg = s@.subrange(from as int, to as int);
    let mut i: usize = from;
    while i < to
        invariant
            from <= i <= to <= s@.len(),
            seg == s@.subrange(from as int, to as int),
            forall|k: int| 0 <= k < i - from ==> is_digit_char(#[trigger] seg[k]),
        decreases to - i,
    {
        let ch = s.get_char(i);
        proof {
            assert(seg[i - from] == s@[i as int]);
        }
        if !digit_char(ch) {
            proof {
                assert(!is_digit_char(seg[i - from]));
            }
            return false;
        }
        i = i + 1;
    }
    true
}

/// Every digit string has a non-negative value below ten to its length.
proof fn lemma_digits_val_bounds(s: Seq<char>)
    requires
        all_digits(s),
    ensures
        0 <= digits_val(s) < pow10(s.len()),
    decreases s.len(),
{
    if s.len() > 0 {
        assert(all_digits(s.drop_last()));
        lemma_digits_val_bounds(s.drop_last());
        assert(is_digit_char(s.last()));
    }
}

/// Reading a prefix of a digit string never yields more than the whole.
proof fn lemma_digits_val_take_le(s: Seq<char>, i: int)
    requires
        all_digits(s),
        0 <= i <= s.len(),
    ensures
        digits_val(s.take(i)) <= digits_val(s),
    decreases s.len() - i,
{
    if i == s.len() {
        assert(s.take(i) =~= s);
    } else {
        lemma_digits_val_take_le(s, i + 1);
        assert(s.take(i + 1).drop_last() =~= s.take(i));
        assert(s.take(i + 1).last() == s[i]);
        assert(all_digits(s.take(i)));
        lemma_digits_val_bounds(s.take(i));
        assert(is_digit_char(s[i]));
        assert(digits_val(s.take(i + 1)) == digits_val(s.take(i)) * 10 + digit_val(s[i]));
    }
}

/// Ten to any power up to six is at most one million.
proof fn lemma_pow10_le_six(m: nat)
    requires
        m <= 6,
    ensures
        1 <= pow10(m) <= 1_000_000,
{
    reveal_with_fuel(pow10, 8);
    if m == 0 {
    } else if m == 1 {
    } else if m == 2 {
    } else if m == 3 {
    } else if m == 4 {
    } else if m == 5 {
    } else {
        assert(m == 6);
    }
}

/// The first seven powers of ten, spelled out.
proof fn lemma_pow10_table()
    ensures
        pow10(0) == 1,
        pow10(1) == 10,
        pow10(2) == 100,
        pow10(3) == 1_000,
        pow10(4) == 10_000,
        pow10(5) == 100_000,
        pow10(6) == 1_000_000,
{
    assert(pow10(0) == 1);
    assert(pow10(1) == 10);
    assert(pow10(2) == 100);
    assert(pow10(3) == 1_000);
    assert(pow10(4) == 10_000);
    assert(pow10(5) == 100_000);
    assert(pow10(6) == 1_000_000);
}

/// Ten to the `k` times ten to the `6 - k` is one million.
proof fn lemma_pow10_split_six(k: nat)
    requires
        k <= 6,
    ensures
        pow10(k) * pow10((6 - k) as nat) == 1_000_000,
{
    lemma_pow10_table();
    if k == 0 {
    } else if k == 1 {
    } else if k == 2 {
    } else if k == 3 {
    } else if k == 4 {
    } else if k == 5 {
    } else {
        assert(k == 6);
    }
}

/// A fractional digit string scales to somewhere within one unit.
proof fn lemma_frac_scaled_bounds(f: Seq<char>)
    requires
        all_digits(f),
    ensures
        0 <= frac_scaled(f) < 1_000_000,
{
    if f.len() >= 6 {
        assert(all_digits(f.subrange(0, 6)));
        lemma_digits_val_bounds(f.subrange(0, 6));
        lemma_pow10_le_six(6);
        reveal_with_fuel(pow10, 8);
    } else {
        lemma_digits_val_bounds(f);
        lemma_pow10_le_six(f.len());
        lemma_pow10_le_six((6 - f.len()) as nat);
        lemma_pow10_split_six(f.len());
        let dv = digits_val(f);
        let pk = pow10(f.len());
        let scale = pow10((6 - f.len()) as nat);
        assert(dv * scale < 1_000_000) by (nonlinear_arith)
            requires
                0 <= dv < pk,
                1 <= scale,
                pk * scale == 1_000_000,
        ;
        assert(dv * scale >= 0) by (nonlinear_arith)
            requires
                0 <= dv,
                0 <= scale,
        ;
    }
}

/// The value of the digits in `s@.subrange(from, to)`, or nothing when it
/// exceeds `cap`.
fn digits_to_val(s: &str, from: usize, to: usize, cap: i64) -> (r: Option<i64>)
    requires
        from <= to <= s@.len(),
        all_digits(s@.subrange(from as int, to as int)),
        0 <= cap <= 400_000_000_000_000_000,
    ensures
        ({
            let seg = s@.subrange(from as int, to as int);
            match r {
                Some(v) => v == digits_val(seg) && 0 <= v <= cap,
                None => digits_val(seg) > cap,
            }
        }),
{
    let ghost seg = s@.subrange(from as int, to as int);
    let mut acc: i64 = 0;
    let mut i: usize = from;
    while i < to
        invariant
            from <= i <= to <= s@.len(),
            seg == s@.subrange(from as int, to as int),
            all_digits(seg),
            0 <= cap <= 400_000_000_000_000_000,
            acc == digits_val(seg.take(i - from)),
            0 <= acc <= cap,
        decreases to - i,
    {
        let ch = s.get_char(i);
        proof {
            assert(seg[i - from] == s@[i as int]);
            assert(is_digit_char(seg[i - from]));
            assert(seg.take(i - from + 1).drop_last() =~= seg.take(i - from));
            assert(seg.take(i - from + 1).last() == seg[i - from]);
        }
        let d: i64 = ((ch as u32) - 48) as i64;
        let next: i64 = acc * 10 + d;
        if next > cap {
            proof {
                lemma_digits_val_take_le(seg, i - from + 1);
            }
            return None;
        }
        acc = next;
        i = i + 1;
    }
    proof {
        assert(seg.take(to - from) =~= seg);
    }
    Some(acc)
}

/// The fractional digits in `s@.subrange(from, to)` scaled to millionths,
/// ignoring digits past the sixth.
fn frac_to_scaled(s: &str, from: usize, to: usize) -> (r: i64)
    requires
        from <= to <= s@.len(),
        all_digits(s@.subrange(from as int, to as int)),
    ensures
        r == frac_scaled(s@.subrange(from as int, to as int)),
        0 <= r < 1_000_000,
{
    let ghost seg = s@.subrange(from as int, to as int);
    let len: usize = to - from;
    let k: usize = if len >= 6 {
        6
    } else {
        len
    };
    let mut acc: i64 = 0;
    let mut i: usize = from;
    while i < from + k
        invariant
            from <= i <= from + k,
            k <= 6,
            k <= to - from,
            to <= s@.len(),
            seg == s@.subrange(from as int, to as int),
            all_digits(seg),
            acc == digits_val(seg.take(i - from)),
            0 <= acc < pow10((i - from) as nat),
        decreases from + k - i,
    {
        let ch = s.get_char(i);
        proof {
            assert(seg[i - from] == s@[i as int]);
            assert(is_digit_char(seg[i - from]));
            assert(seg.take(i - from + 1).drop_last() =~= seg.take(i - from));
            assert(seg.take(i - from + 1).last() == seg[i - from]);
            lemma_pow10_le_six(((i - from) as nat + 1) as nat);
        }
        let d: i64 = ((ch as u32) - 48) as i64;
        acc = acc * 10 + d;
        i = i + 1;
    }
    let scale: i64 = pow10_small(6 - k);
    proof {
        lemma_pow10_le_six((6 - k) as nat);
        lemma_pow10_le_six(k as nat);
        lemma_pow10_split_six(k as nat);
        let pk = pow10(k as nat);
        assert(acc * scale < 1_000_000 && 0 <= acc * scale) by (nonlinear_arith)
            requires
                0 <= acc < pk,
                1 <= scale,
                pk * scale == 1_000_000,
        ;
        if k == 6 {
            assert(seg.take(6) =~= seg.subrange(0, 6));
            reveal_with_fuel(pow10, 2);
        } else {
            assert(seg.take(k as int) =~= seg);
        }
    }
    acc * scale
}

/// A structured parse failure cause.
#[derive(Clone, Copy, PartialEq, Eq, Structural, Debug)]
pub enum ParseErrorKind {
    /// The input does not split into exactly two fields at a comma.
    WrongFieldCount,
    /// A field is not a number the parser accepts.
    NumericConversion(NumError),
}

/// The error value of the point parser: the cause, and the offending text
/// (the whole input for a field-count failure, the failing field otherwise).
#[derive(Clone, Debug)]
pub struct ParseError {
    pub kind: ParseErrorKind,
    pub text: String,
}

impl ParseError {
    /// A human-readable description: the cause, then the offending text.
    pub fn describe(&self) -> (r: String)
        ensures
            self.kind is WrongFieldCount ==> r@ == "wrong field count: "@ + self.text@,
            self.kind matches ParseErrorKind::NumericConversion(NumError::Malformed) ==> r@
                == "numeric conversion failure, malformed number: "@ + self.text@,
            self.kind matches ParseErrorKind::NumericConversion(NumError::OutOfRange) ==> r@
                == "numeric conversion failure, out of range: "@ + self.text@,
    {
        let prefix: String = match self.kind {
            ParseErrorKind::WrongFieldCount => String::from_str("wrong field count: "),
            ParseErrorKind::NumericConversion(NumError::Malformed) => String::from_str(
                "numeric conversion failure, malformed number: ",
            ),
            ParseErrorKind::NumericConversion(NumError::OutOfRange) => String::from_str(
                "numeric conversion failure, out of range: ",
            ),
        };
        prefix.concat(self.text.as_str())
    }
}

/// The text of the first coordinate field: the trimmed input up to its
/// first comma.
pub open spec fn x_text(s: Seq<char>) -> Seq<char> {
    let t = trimmed_view(s);
    t.subrange(0, find_ch_from(t, ',', 0))
}

/// The text of the second coordinate field: the trimmed input past its
/// first comma.
pub open spec fn y_text(s: Seq<char>) -> Seq<char> {
    let t = trimmed_view(s);
    t.subrange(find_ch_from(t, ',', 0) + 1, t.len() as int)
}

/// Whether the trimmed input splits into exactly two fields, which is to
/// say holds exactly one comma.
pub open spec fn point_fields_ok(s: Seq<char>) -> bool {
    count_ch_from(trimmed_view(s), ',', 0) == 1
}

/// Whether the input parses as a point: two fields, each a coordinate.
pub open spec fn point_spec_ok(s: Seq<char>) -> bool {
    &&& point_fields_ok(s)
    &&& coord_result(x_text(s)) is Ok
    &&& coord_result(y_text(s)) is Ok
}

/// The x coordinate the input parses to, in millionths of a unit.
pub open spec fn point_spec_x(s: Seq<char>) -> int {
    coord_result(x_text(s))->Ok_0
}

/// The y coordinate the input parses to, in millionths of a unit.
pub open spec fn point_spec_y(s: Seq<char>) -> int {
    coord_result(y_text(s))->Ok_0
}

/// The cause reported for an input that does not parse as a point: a
/// wrong field count first, else the first failing field's cause.
pub open spec fn point_err_kind(s: Seq<char>) -> ParseErrorKind {
    if !point_fields_ok(s) {
        ParseErrorKind::WrongFieldCount
    } else if coord_result(x_text(s)) is Err {
        ParseErrorKind::NumericConversion(coord_result(x_text(s))->Err_0)
    } else {
        ParseErrorKind::NumericConversion(coord_result(y_text(s))->Err_0)
    }
}

/// The offending text reported for an input that does not parse as a
/// point: the whole input for a wrong field count, else the first failing
/// field.
pub open spec fn point_err_text(s: Seq<char>) -> Seq<char> {
    if !point_fields_ok(s) {
        s
    } else if coord_result(x_text(s)) is Err {
        x_text(s)
    } else {
        y_text(s)
    }
}

/// Parses one coordinate field, exactly as [`coord_result`] describes:
/// the trimmed text must be an optionally signed decimal number, and its
/// fixed-point value must fit within [`COORD_LIMIT`] millionths.
#[verifier::rlimit(60)]
pub fn parse_coord(s: &str) -> (r: Result<i64, NumError>)
    ensures
        coord_result(s@) matches Ok(v) ==> (r matches Ok(x) && x == v),
        coord_result(s@) matches Err(e) ==> (r matches Err(k) && k == e),
{
    let (a0, b0) = trim_bounds(s);
    let ghost t = trimmed_view(s@);
    if a0 >= b0 {
        proof {
            assert(t =~= Seq::<char>::empty());
            assert(number_body(t) =~= Seq::<char>::empty());
        }
        return Err(NumError::Malformed);
    }
    let first = s.get_char(a0);
    let neg = first == '-';
    let has_sign = neg || first == '+';
    let i0: usize = if has_sign {
        a0 + 1
    } else {
        a0
    };
    proof {
        assert(t[0] == s@[a0 as int]);
        assert(number_body(t) =~= s@.subrange(i0 as int, b0 as int));
    }
    let ghost nb = s@.subrange(i0 as int, b0 as int);
    let (dots, dpos) = scan_char(s, i0, b0, '.');
    if dots > 1 {
        return Err(NumError::Malformed);
    }
    let ip_end: usize = if dots == 1 {
        dpos
    } else {
        b0
    };
    let f_start: usize = if dots == 1 {
        dpos + 1
    } else {
        b0
    };
    proof {
        assert(int_digits(nb) =~= s@.subrange(i0 as int, ip_end as int));
        assert(frac_digits(nb) =~= s@.subrange(f_start as int, b0 as int));
    }
    if !check_digits(s, i0, ip_end) {
        return Err(NumError::Malformed);
    }
    if !check_digits(s, f_start, b0) {
        return Err(NumError::Malformed);
    }
    if ip_end - i0 == 0 && b0 - f_start == 0 {
        return Err(NumError::Malformed);
    }
    match digits_to_val(s, i0, ip_end, 2_000_000_000_000) {
        Option::None => {
            proof {
                lemma_frac_scaled_bounds(frac_digits(nb));
                assert(number_magnitude(nb) > COORD_LIMIT);
            }
            Err(NumError::OutOfRange)
        },
        Option::Some(ipart) => {
            let frac = frac_to_scaled(s, f_start, b0);
            let mag: i64 = ipart * 1_000_000 + frac;
            proof {
                assert(number_wellformed(nb));
                assert(mag == number_magnitude(nb));
            }
            if mag > COORD_LIMIT {
                proof {
                    assert(coord_val(t) > COORD_LIMIT || coord_val(t) < -COORD_LIMIT);
                }
                return Err(NumError::OutOfRange);
            }
            let v: i64 = if neg {
                -mag
            } else {
                mag
            };
            proof {
                assert(v == coord_val(t));
                assert(-COORD_LIMIT <= coord_val(t) <= COORD_LIMIT);
                assert(coord_result(s@) == Result::<int, NumError>::Ok(coord_val(t)));
            }
            Ok(v)
        },
    }
}

/// Parses a textual coordinate pair such as `"1.5,-2.0"` into a point.
/// The input is trimmed, split at its single comma, and each field read as
/// a fixed-point coordinate; the first broken rule is reported as a
/// structured error carrying the offending text.
pub fn parse_point(input_str: &str) -> (r: Result<Point, ParseError>)
    ensures
        point_spec_ok(input_str@) ==> (r matches Ok(p) && p.x == point_spec_x(input_str@)
            && p.y == point_spec_y(input_str@)),
        !point_spec_ok(input_str@) ==> (r matches Err(e) && e.kind == point_err_kind(input_str@)
            && e.text@ == point_err_text(input_str@)),
{
    let (a, b) = trim_bounds(input_str);
    let ghost t = trimmed_view(input_str@);
    if a >= b {
        proof {
            assert(t =~= Seq::<char>::empty());
        }
        return Err(
            ParseError {
                kind: ParseErrorKind::WrongFieldCount,
                text: String::from_str(input_str),
            },
        );
    }
    let (commas, k) = scan_char(input_str, a, b, ',');
    if commas != 1 {
        return Err(
            ParseError {
                kind: ParseErrorKind::WrongFieldCount,
                text: String::from_str(input_str),
            },
        );
    }
    let fx: &str = input_str.substring_char(a, k);
    let fy: &str = input_str.substring_char(k + 1, b);
    proof {
        assert(fx@ =~= x_text(input_str@));
        assert(fy@ =~= y_text(input_str@));
    }
    match parse_coord(fx) {
        Result::Err(ne) => Err(
            ParseError { kind: ParseErrorKind::NumericConversion(ne), text: String::from_str(fx) },
        ),
        Result::Ok(xv) => match parse_coord(fy) {
            Result::Err(ne) => Err(
                ParseError {
                    kind: ParseErrorKind::NumericConversion(ne),
                    text: String::from_str(fy),
                },
            ),
            Result::Ok(yv) => Ok(Point { x: xv, y: yv }),
        },
    }
}

/// Parses both inputs as points and yields their Euclidean distance in
/// millionths of a unit, rounded down. The first failure wins: an error in
/// the first input is reported unchanged, whatever the second holds.
pub fn distance_from_str(a: &str, b: &str) -> (r: Result<u128, ParseError>)
    ensures
        !point_spec_ok(a@) ==> (r matches Err(e) && e.kind == point_err_kind(a@) && e.text@
            == point_err_text(a@)),
        point_spec_ok(a@) && !point_spec_ok(b@) ==> (r matches Err(e) && e.kind == point_err_kind(
            b@,
        ) && e.text@ == point_err_text(b@)),
        point_spec_ok(a@) && point_spec_ok(b@) ==> (r matches Ok(d) && ({
            let sqd = dist2_xy(point_spec_x(a@), point_spec_y(a@), point_spec_x(b@), point_spec_y(b@));
            d * d <= sqd < (d + 1) * (d + 1)
        })),
{
    let p1: Point = match parse_point(a) {
        Result::Ok(p) => p,
        Result::Err(e) => {
            return Err(e);
        },
    };
    let p2: Point = match parse_point(b) {
        Result::Ok(p) => p,
        Result::Err(e) => {
            return Err(e);
        },
    };
    proof {
        assert(-2_000_000_000_000_000_000 <= p1.x <= 2_000_000_000_000_000_000);
        assert(-2_000_000_000_000_000_000 <= p1.y <= 2_000_000_000_000_000_000);
        assert(-2_000_000_000_000_000_000 <= p2.x <= 2_000_000_000_000_000_000);
        assert(-2_000_000_000_000_000_000 <= p2.y <= 2_000_000_000_000_000_000);
        assert(sq(p1.x - p2.x) <= 16_000_000_000_000_000_000_000_000_000_000_000_000)
            by (nonlinear_arith)
            requires
                -4_000_000_000_000_000_000 <= p1.x - p2.x <= 4_000_000_000_000_000_000,
        ;
        assert(sq(p1.y - p2.y) <= 16_000_000_000_000_000_000_000_000_000_000_000_000)
            by (nonlinear_arith)
            requires
                -4_000_000_000_000_000_000 <= p1.y - p2.y <= 4_000_000_000_000_000_000,
        ;
        assert(dist2(p1, p2) <= u128::MAX);
    }
    Ok(p1.distance_euclidean(&p2))
}

/// Parses a 32-bit integer from text with surrounding whitespace, exactly
/// as [`i32_result`] describes: an optional sign and decimal digits, with
/// values outside the `i32` range rejected.
pub fn parse_i32_question(input_str: &str) -> (r: Result<i32, NumError>)
    ensures
        i32_result(input_str@) matches Ok(v) ==> (r matches Ok(x) && x == v),
        i32_result(input_str@) matches Err(e) ==> (r matches Err(k) && k == e),
{
    let (a0, b0) = trim_bounds(input_str);
    let ghost t = trimmed_view(input_str@);
    if a0 >= b0 {
        proof {
            assert(t =~= Seq::<char>::empty());
            assert(number_body(t) =~= Seq::<char>::empty());
        }
        return Err(NumError::Malformed);
    }
    let first = input_str.get_char(a0);
    let neg = first == '-';
    let has_sign = neg || first == '+';
    let i0: usize = if has_sign {
        a0 + 1
    } else {
        a0
    };
    proof {
        assert(t[0] == input_str@[a0 as int]);
        assert(number_body(t) =~= input_str@.subrange(i0 as int, b0 as int));
    }
    if !check_digits(input_str, i0, b0) {
        return Err(NumError::Malformed);
    }
    if b0 - i0 == 0 {
        return Err(NumError::Malformed);
    }
    match digits_to_val(input_str, i0, b0, 2_147_483_648) {
        Option::None => Err(NumError::OutOfRange),
        Option::Some(dv) => {
            if neg {
                Ok((-dv) as i32)
            } else {
                if dv > 2_147_483_647 {
                    Err(NumError::OutOfRange)
                } else {
                    Ok(dv as i32)
                }
            }
        },
    }
}

/// Ten to a small power, as a machine integer.
fn pow10_small(e: usize) -> (r: i64)
    requires
        e <= 6,
    ensures
        r == pow10(e as nat),
{
    proof {
        reveal_with_fuel(pow10, 8);
    }
    if e == 0 {
        1
    } else if e == 1 {
        10
    } else if e == 2 {
        100
    } else if e == 3 {
        1_000
    } else if e == 4 {
        10_000
    } else if e == 5 {
        100_000
    } else {
        1_000_000
    }
}

} // verus!
