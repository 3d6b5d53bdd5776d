//! Character-sequence helpers: ordering, equality, decimal rendering and parsing,
//! and the joining of Unix paths.
use vstd::prelude::*;

verus! {

// ---------------------------------------------------------------------------
// Lexicographic order
// ---------------------------------------------------------------------------

/// Strict lexicographic order on character sequences, comparing code points.
/// This is the order of `String`'s `Ord` (UTF-8 byte order equals code point order).
pub open spec fn str_lt(a: Seq<char>, b: Seq<char>) -> bool
    decreases a.len(),
{
    if a.len() == 0 {
        b.len() > 0
    } else if b.len() == 0 {
        false
    } else if a[0] != b[0] {
        (a[0] as int) < (b[0] as int)
    } else {
        str_lt(a.drop_first(), b.drop_first())
    }
}

proof fn lemma_cons_eq(a: Seq<char>, b: Seq<char>)
    requires
        a.len() > 0,
        b.len() > 0,
        a[0] == b[0],
        a.drop_first() == b.drop_first(),
    ensures
        a == b,
{
    assert(a.len() == a.drop_first().len() + 1);
    assert(b.len() == b.drop_first().len() + 1);
    assert forall|i: int| 0 <= i < a.len() implies a[i] == b[i] by {
        if i > 0 {
            assert(a[i] == a.drop_first()[i - 1]);
            assert(b[i] == b.drop_first()[i - 1]);
        }
    }
    assert(a =~= b);
}

/// No sequence is below itself.
pub proof fn lemma_str_lt_irreflexive(a: Seq<char>)
    ensures
        !str_lt(a, a),
    decreases a.len(),
{
    if a.len() > 0 {
        lemma_str_lt_irreflexive(a.drop_first());
    }
}

/// Any two sequences are ordered one way, or are equal; never both ways.
pub proof fn lemma_str_lt_trichotomy(a: Seq<char>, b: Seq<char>)
    ensures
        str_lt(a, b) || a == b || str_lt(b, a),
        !(str_lt(a, b) && str_lt(b, a)),
        str_lt(a, b) ==> a != b,
    decreases a.len(),
{
    if a.len() == 0 {
        if b.len() == 0 {
            assert(a =~= b);
        }
    } else if b.len() == 0 {
    } else if a[0] != b[0] {
        assert((a[0] as int) != (b[0] as int));
    } else {
        lemma_str_lt_trichotomy(a.drop_first(), b.drop_first());
        if a.drop_first() == b.drop_first() {
            lemma_cons_eq(a, b);
        }
        if str_lt(a, b) {
            lemma_str_lt_irreflexive(a);
        }
    }
}

/// The order is transitive.
pub proof fn lemma_str_lt_transitive(a: Seq<char>, b: Seq<char>, c: Seq<char>)
    requires
        str_lt(a, b),
        str_lt(b, c),
    ensures
        str_lt(a, c),
    decreases a.len(),
{
    if a.len() > 0 && b.len() > 0 && c.len() > 0 {
        if a[0] == b[0] && b[0] == c[0] {
            lemma_str_lt_transitive(a.drop_first(), b.drop_first(), c.drop_first());
        }
    }
}

/// The order is that of the characters' code points, with a proper prefix first: the empty
/// text is below any other, a text is below itself extended, and two texts that first differ
/// at a position are ordered by the characters there.
pub proof fn law_str_lt_orientation(a: Seq<char>, b: Seq<char>, i: int)
    ensures
        b.len() > 0 ==> str_lt(Seq::empty(), b),
        !str_lt(a, Seq::empty()),
        b.len() > 0 ==> str_lt(a, a + b),
        0 <= i < a.len() && i < b.len() && a.take(i) == b.take(i) && a[i] != b[i] ==> (str_lt(
            a,
            b,
        ) <==> (a[i] as int) < (b[i] as int)),
    decreases a.len(),
{
    if a.len() > 0 {
        if b.len() > 0 {
            assert((a + b).drop_first() =~= a.drop_first() + b);
            law_str_lt_orientation(a.drop_first(), b, i);
        }
        if 0 < i < a.len() && i < b.len() && a.take(i) == b.take(i) && a[i] != b[i] {
            assert(a[0] == a.take(i)[0]);
            assert(b[0] == b.take(i)[0]);
            assert(a.drop_first().take(i - 1) =~= a.take(i).drop_first());
            assert(b.drop_first().take(i - 1) =~= b.take(i).drop_first());
            law_str_lt_orientation(a.drop_first(), b.drop_first(), i - 1);
        }
    }
}

/// Compares two strings in lexicographic order.
pub fn str_less(a: &str, b: &str) -> (r: bool)
    ensures
        r == str_lt(a@, b@),
{
    let alen = a.unicode_len();
    let blen = b.unicode_len();
    let mut i: usize = 0;
    assert(a@.skip(0) =~= a@);
    assert(b@.skip(0) =~= b@);
    while i < alen && i < blen
        invariant
            alen == a@.len(),
            blen == b@.len(),
            i <= alen,
            i <= blen,
            str_lt(a@, b@) == str_lt(a@.skip(i as int), b@.skip(i as int)),
        decreases alen - i,
    {
        let ca = a.get_char(i);
        let cb = b.get_char(i);
        assert(a@.skip(i as int)[0] == ca);
        assert(b@.skip(i as int)[0] == cb);
        if ca != cb {
            return ca < cb;
        }
        assert(a@.skip(i as int).drop_first() =~= a@.skip(i + 1));
        assert(b@.skip(i as int).drop_first() =~= b@.skip(i + 1));
        i = i + 1;
    }
    i < blen
}

/// Compares two strings for equality.
pub fn str_equal(a: &str, b: &str) -> (r: bool)
    ensures
        r == (a@ == b@),
{
    let sa = String::from_str(a);
    let sb = String::from_str(b);
    sa == sb
}

// ---------------------------------------------------------------------------
// Decimal digits
// ---------------------------------------------------------------------------

/// An ASCII decimal digit.
pub open spec fn is_digit(c: char) -> bool {
    48 <= (c as u32) <= 57
}

/// The value of an ASCII decimal digit.
pub open spec fn digit_value(c: char) -> nat {
    ((c as u32) - 48) as nat
}

/// The ASCII digit for a value below ten.
pub open spec fn digit_char(d: nat) -> char {
    if d == 0 {
        '0'
    } else if d == 1 {
        '1'
    } else if d == 2 {
        '2'
    } else if d == 3 {
        '3'
    } else if d == 4 {
        '4'
    } else if d == 5 {
        '5'
    } else if d == 6 {
        '6'
    } else if d == 7 {
        '7'
    } else if d == 8 {
        '8'
    } else {
        '9'
    }
}

/// The decimal rendering of a natural number, without leading zeros.
pub open spec fn decimal(n: nat) -> Seq<char>
    decreases n,
{
    if n < 10 {
        seq![digit_char(n)]
    } else {
        decimal(n / 10) + seq![digit_char(n % 10)]
    }
}

fn digit_str(d: u16) -> (r: &'static str)
    requires
        d < 10,
    ensures
        r@ == seq![digit_char(d as nat)],
{
    proof {
        reveal_strlit("0");
        reveal_strlit("1");
        reveal_strlit("2");
        reveal_strlit("3");
        reveal_strlit("4");
        reveal_strlit("5");
        reveal_strlit("6");
        reveal_strlit("7");
        reveal_strlit("8");
        reveal_strlit("9");
    }
    let r = if d == 0 {
        "0"
    } else if d == 1 {
        "1"
    } else if d == 2 {
        "2"
    } else if d == 3 {
        "3"
    } else if d == 4 {
        "4"
    } else if d == 5 {
        "5"
    } else if d == 6 {
        "6"
    } else if d == 7 {
        "7"
    } else if d == 8 {
        "8"
    } else {
        "9"
    };
    assert(r@ =~= seq![digit_char(d as nat)]);
    r
}

/// Renders a port number in decimal, as `Display` for `u16` does.
pub fn u16_to_string(n: u16) -> (r: String)
    ensures
        r@ == decimal(n as nat),
    decreases n,
{
    if n < 10 {
        String::from_str(digit_str(n))
    } else {
        let mut s = u16_to_string(n / 10);
        s.append(digit_str(n % 10));
        s
    }
}

/// The way `str::parse::<u16>` fails.
#[derive(Clone, Copy, Debug, PartialEq, Eq, Structural)]
pub enum IntErrorKind {
    /// The text is empty.
    Empty,
    /// A character is not a digit (a lone sign counts as one).
    InvalidDigit,
    /// The number exceeds 65535.
    PosOverflow,
}

/// Reads the digits of `d` from left to right, as the standard library does: the first
/// character that is not a digit, or the first digit at which the value passes 65535, decides
/// the error.
pub open spec fn digits_result(d: Seq<char>) -> Result<nat, IntErrorKind>
    decreases d.len(),
{
    if d.len() == 0 {
        Ok(0)
    } else {
        match digits_result(d.drop_last()) {
            Err(e) => Err(e),
            Ok(v) => if !is_digit(d.last()) {
                Err(IntErrorKind::InvalidDigit)
            } else if v * 10 + digit_value(d.last()) > 65535 {
                Err(IntErrorKind::PosOverflow)
            } else {
                Ok(v * 10 + digit_value(d.last()))
            },
        }
    }
}

/// What `str::parse::<u16>` gives: an optional leading `+`, then one or more decimal digits
/// whose value fits in 16 bits.
pub open spec fn parse_u16_spec(s: Seq<char>) -> Result<u16, IntErrorKind> {
    if s.len() == 0 {
        Err(IntErrorKind::Empty)
    } else if s[0] == '+' && s.len() == 1 {
        Err(IntErrorKind::InvalidDigit)
    } else {
        let d = if s[0] == '+' {
            s.drop_first()
        } else {
            s
        };
        match digits_result(d) {
            Ok(v) => Ok(v as u16),
            Err(e) => Err(e),
        }
    }
}

/// Parses a port number as `str::parse::<u16>` does.
pub fn parse_u16(s: &str) -> (r: Result<u16, IntErrorKind>)
    ensures
        r == parse_u16_spec(s@),
{
    let len = s.unicode_len();
    if len == 0 {
        return Err(IntErrorKind::Empty);
    }
    let first = s.get_char(0);
    if first == '+' && len == 1 {
        return Err(IntErrorKind::InvalidDigit);
    }
    let start: usize = if first == '+' { 1 } else { 0 };
    let ghost d = if first == '+' { s@.drop_first() } else { s@ };
    assert(d =~= s@.skip(start as int));
    let mut acc: u32 = 0;
    let mut i: usize = start;
    while i < len
        invariant
            len == s@.len(),
            start <= i <= len,
            d == s@.skip(start as int),
            d == (if s@[0] == '+' { s@.drop_first() } else { s@ }),
            s@.len() > 0,
            !(s@[0] == '+' && s@.len() == 1),
            digits_result(d.take(i - start)) == Ok::<nat, IntErrorKind>(acc as nat),
            acc <= 65535,
        decreases len - i,
    {
        let c = s.get_char(i);
        assert(d.take(i + 1 - start).drop_last() =~= d.take(i - start));
        assert(d.take(i + 1 - start).last() == c);
        let code = c as u32;
        if code < 48 || code > 57 {
            assert(digits_result(d.take(i + 1 - start)) == Err::<nat, IntErrorKind>(IntErrorKind::InvalidDigit));
            proof {
                lemma_digits_prefix_error(d, (i + 1 - start) as nat);
            }
            return Err(IntErrorKind::InvalidDigit);
        }
        let v = acc * 10 + (code - 48);
        if v > 65535 {
            assert(digits_result(d.take(i + 1 - start)) == Err::<nat, IntErrorKind>(IntErrorKind::PosOverflow));
            proof {
                lemma_digits_prefix_error(d, (i + 1 - start) as nat);
            }
            return Err(IntErrorKind::PosOverflow);
        }
        acc = v;
        i = i + 1;
    }
    assert(d.take(i - start) =~= d);
    Ok(acc as u16)
}

/// Once a prefix of the digits fails, the whole text fails the same way.
proof fn lemma_digits_prefix_error(d: Seq<char>, k: nat)
    requires
        k <= d.len(),
        digits_result(d.take(k as int)) is Err,
    ensures
        digits_result(d) == digits_result(d.take(k as int)),
    decreases d.len() - k,
{
    if k < d.len() {
        assert(d.take((k + 1) as int).drop_last() =~= d.take(k as int));
        lemma_digits_prefix_error(d, k + 1);
    } else {
        assert(d.take(k as int) =~= d);
    }
}

proof fn lemma_digit_char(d: nat)
    requires
        d < 10,
    ensures
        is_digit(digit_char(d)),
        digit_value(digit_char(d)) == d,
        digit_char(d) != '+',
{
}

proof fn lemma_digits_of_decimal(n: nat)
    requires
        n <= 65535,
    ensures
        decimal(n).len() > 0,
        decimal(n)[0] != '+',
        digits_result(decimal(n)) == Ok::<nat, IntErrorKind>(n),
    decreases n,
{
    if n < 10 {
        lemma_digit_char(n);
        assert(decimal(n).drop_last() =~= Seq::<char>::empty());
        assert(digits_result(Seq::<char>::empty()) == Ok::<nat, IntErrorKind>(0));
        assert(decimal(n).last() == digit_char(n));
    } else {
        lemma_digits_of_decimal(n / 10);
        lemma_digit_char(n % 10);
        let s = decimal(n);
        assert(s.drop_last() =~= decimal(n / 10));
        assert(s.last() == digit_char(n % 10));
        assert(s[0] == decimal(n / 10)[0]);
        assert((n / 10) * 10 + n % 10 == n);
        assert(digits_result(s.drop_last()) == Ok::<nat, IntErrorKind>(n / 10));
    }
}

/// Reading back the decimal rendering of a port number gives the number.
pub proof fn law_decimal_parse_roundtrip(n: u16)
    ensures
        parse_u16_spec(decimal(n as nat)) == Ok::<u16, IntErrorKind>(n),
{
    lemma_digits_of_decimal(n as nat);
}

/// The decimal rendering of a number is made of digits only, starts with a non-zero digit
/// unless the number is zero, and reads back as the number.
pub proof fn law_decimal_digits(n: u16)
    ensures
        decimal(n as nat).len() > 0,
        forall|i: int| 0 <= i < decimal(n as nat).len() ==> is_digit(#[trigger] decimal(n as nat)[i]),
        n != 0 ==> decimal(n as nat)[0] != '0',
        parse_u16_spec(decimal(n as nat)) == Ok::<u16, IntErrorKind>(n),
{
    lemma_decimal_digits(n as nat);
    law_decimal_parse_roundtrip(n);
}

proof fn lemma_decimal_digits(n: nat)
    ensures
        decimal(n).len() > 0,
        forall|i: int| 0 <= i < decimal(n).len() ==> is_digit(#[trigger] decimal(n)[i]),
        n != 0 ==> decimal(n)[0] != '0',
    decreases n,
{
    if n < 10 {
        lemma_digit_char(n);
    } else {
        lemma_decimal_digits(n / 10);
        lemma_digit_char(n % 10);
        let s = decimal(n);
        assert forall|i: int| 0 <= i < s.len() implies is_digit(#[trigger] s[i]) by {
            if i < decimal(n / 10).len() {
                assert(s[i] == decimal(n / 10)[i]);
            }
        }
        assert(s[0] == decimal(n / 10)[0]);
    }
}

/// Only digits, after an optional leading `+`, parse as a port number; and a `+` in front of
/// digits changes nothing.
pub proof fn law_parse_u16_digits_only(s: Seq<char>)
    ensures
        parse_u16_spec(s) is Ok ==> s.len() > 0 && forall|i: int|
            (if s[0] == '+' { 1int } else { 0int }) <= i < s.len() ==> is_digit(#[trigger] s[i]),
        s.len() > 0 && s[0] != '+' ==> parse_u16_spec(seq!['+'] + s) == parse_u16_spec(s),
{
    if s.len() > 0 {
        let d = if s[0] == '+' {
            s.drop_first()
        } else {
            s
        };
        lemma_digits_ok_all_digits(d);
        if parse_u16_spec(s) is Ok {
            assert forall|i: int|
                (if s[0] == '+' { 1int } else { 0int }) <= i < s.len() implies is_digit(
                #[trigger] s[i],
            ) by {
                if s[0] == '+' {
                    assert(s[i] == d[i - 1]);
                }
            }
        }
        if s[0] != '+' {
            assert((seq!['+'] + s).drop_first() =~= s);
        }
    }
}

proof fn lemma_digits_ok_all_digits(d: Seq<char>)
    ensures
        digits_result(d) is Ok ==> forall|i: int| 0 <= i < d.len() ==> is_digit(#[trigger] d[i]),
    decreases d.len(),
{
    if d.len() > 0 {
        lemma_digits_ok_all_digits(d.drop_last());
        if digits_result(d) is Ok {
            assert forall|i: int| 0 <= i < d.len() implies is_digit(#[trigger] d[i]) by {
                if i < d.len() - 1 {
                    assert(d[i] == d.drop_last()[i]);
                }
            }
        }
    }
}

/// What `str::parse::<bool>` gives: `true` for "true", `false` for "false", else nothing.
pub open spec fn parse_bool_spec(s: Seq<char>) -> Option<bool> {
    if s == "true"@ {
        Some(true)
    } else if s == "false"@ {
        Some(false)
    } else {
        None
    }
}

/// Parses a boolean as `str::parse::<bool>` does.
pub fn parse_bool(s: &str) -> (r: Option<bool>)
    ensures
        r == parse_bool_spec(s@),
{
    if str_equal(s, "true") {
        Some(true)
    } else if str_equal(s, "false") {
        Some(false)
    } else {
        None
    }
}

/// The text `Display` gives for a boolean.
pub open spec fn bool_text(b: bool) -> Seq<char> {
    if b {
        "true"@
    } else {
        "false"@
    }
}

/// Renders a boolean as `Display` does.
pub fn bool_to_string(b: bool) -> (r: String)
    ensures
        r@ == bool_text(b),
{
    if b {
        String::from_str("true")
    } else {
        String::from_str("false")
    }
}

/// Reading back the rendering of a boolean gives the boolean.
pub proof fn law_bool_parse_roundtrip(b: bool)
    ensures
        parse_bool_spec(bool_text(b)) == Some(b),
{
    reveal_strlit("true");
    reveal_strlit("false");
    assert("true"@.len() != "false"@.len());
}

// ---------------------------------------------------------------------------
// Unix paths
// ---------------------------------------------------------------------------

/// A path is absolute when it starts with `/`.
pub open spec fn is_absolute_path(p: Seq<char>) -> bool {
    p.len() > 0 && p[0] == '/'
}

/// `Path::join` on Unix: an absolute `p` replaces `base`; otherwise `p` is appended,
/// with a `/` between unless `base` is empty or already ends with one.
pub open spec fn join_path_spec(base: Seq<char>, p: Seq<char>) -> Seq<char> {
    if is_absolute_path(p) {
        p
    } else if base.len() == 0 || base.last() == '/' {
        base + p
    } else {
        base + seq!['/'] + p
    }
}

/// Tells whether a path is relative (does not start with `/`).
pub fn is_relative_path(p: &str) -> (r: bool)
    ensures
        r == !is_absolute_path(p@),
{
    let len = p.unicode_len();
    !(len > 0 && p.get_char(0) == '/')
}

/// Joins a path onto a base directory as `Path::join` does on Unix.
pub fn join_path(base: &str, p: &str) -> (r: String)
    ensures
        r@ == join_path_spec(base@, p@),
{
    if !is_relative_path(p) {
        return String::from_str(p);
    }
    let blen = base.unicode_len();
    let mut r = String::from_str(base);
    if blen > 0 && base.get_char(blen - 1) != '/' {
        proof {
            reveal_strlit("/");
        }
        r.append("/");
        assert("/"@ =~= seq!['/']);
    }
    r.append(p);
    r
}

/// Where the path component that ends at `end` starts: just after the last `/` before it.
pub open spec fn component_start(p: Seq<char>, end: int) -> int
    decreases end,
{
    if end <= 0 {
        0
    } else if p[end - 1] == '/' {
        end
    } else {
        component_start(p, end - 1)
    }
}

/// A component starts at or before its end, and strictly before it when it does not end in `/`.
pub proof fn lemma_component_start(p: Seq<char>, end: int)
    requires
        0 <= end <= p.len(),
    ensures
        0 <= component_start(p, end) <= end,
        end > 0 && p[end - 1] != '/' ==> component_start(p, end) < end,
    decreases end,
{
    if end > 0 && p[end - 1] != '/' {
        lemma_component_start(p, end - 1);
    }
}

/// Where the file name of the path up to `end` lies, as `Path::file_name` finds it: trailing
/// `/` and `.` components are skipped; the root, a leading `.` and a `..` have no file name.
pub open spec fn file_name_span(p: Seq<char>, end: int) -> Option<(int, int)>
    decreases end,
{
    if end <= 0 || end > p.len() {
        None
    } else if p[end - 1] == '/' {
        file_name_span(p, end - 1)
    } else {
        let s = component_start(p, end);
        proof {
            lemma_component_start(p, end);
        }
        if end - s == 1 && p[s] == '.' {
            if s == 0 {
                None
            } else {
                file_name_span(p, s)
            }
        } else if end - s == 2 && p[s] == '.' && p[s + 1] == '.' {
            None
        } else {
            Some((s, end))
        }
    }
}

/// The position of the last `.` in `p[s..i]`, if any.
pub open spec fn last_dot(p: Seq<char>, s: int, i: int) -> Option<int>
    decreases i - s,
{
    if i <= s {
        None
    } else if p[i - 1] == '.' {
        Some(i - 1)
    } else {
        last_dot(p, s, i - 1)
    }
}

/// Where the extension of the path's file name lies, as `Path::extension` finds it: after
/// the last `.` of the file name, unless that `.` begins the name.
pub open spec fn extension_span(p: Seq<char>) -> Option<(int, int)> {
    match file_name_span(p, p.len() as int) {
        None => None,
        Some((s, e)) => {
            let k = last_dot(p, s, e);
            if k is Some && k->0 > s {
                Some((k->0 + 1, e))
            } else {
                None
            }
        },
    }
}

/// `Path::set_extension` with a non-empty extension on Unix: the path is cut right after the
/// file stem and `.` and the extension are appended; a path without a file name is kept.
pub open spec fn set_extension_spec(q: Seq<char>, ext: Seq<char>) -> Seq<char> {
    match file_name_span(q, q.len() as int) {
        None => q,
        Some((s, e)) => {
            let k = last_dot(q, s, e);
            let stem_end = if k is Some && k->0 > s {
                k->0
            } else {
                e
            };
            q.subrange(0, stem_end) + "."@ + ext
        },
    }
}

/// The path of the backup copy of a file: the file's extension gets `.bak` appended (a file
/// without one gets the extension `bak`). This is `Path::with_extension` on Unix, which drops
/// the old extension's characters from the end of the path and then sets the new one.
pub open spec fn backup_path_spec(p: Seq<char>) -> Seq<char> {
    match extension_span(p) {
        None => set_extension_spec(p, "bak"@),
        Some((a, b)) => set_extension_spec(
            p.subrange(0, p.len() - (b - a)),
            p.subrange(a, b) + ".bak"@,
        ),
    }
}

proof fn lemma_component_start_shape(p: Seq<char>, end: int)
    requires
        0 <= end <= p.len(),
    ensures
        component_start(p, end) == 0 || p[component_start(p, end) - 1] == '/',
        forall|i: int| component_start(p, end) <= i < end ==> p[i] != '/',
    decreases end,
{
    lemma_component_start(p, end);
    if end > 0 && p[end - 1] != '/' {
        lemma_component_start_shape(p, end - 1);
    }
}

proof fn lemma_component_start_is(p: Seq<char>, s0: int, end: int)
    requires
        0 <= s0 <= end <= p.len(),
        s0 == 0 || p[s0 - 1] == '/',
        forall|i: int| s0 <= i < end ==> p[i] != '/',
    ensures
        component_start(p, end) == s0,
    decreases end,
{
    if end > s0 {
        lemma_component_start_is(p, s0, end - 1);
    }
}

/// The backup of a file whose path ends with its file name is that path with `.bak`
/// appended (a file name such as `..x`, whose stem would be `.`, is left out).
pub proof fn law_backup_appends_bak(p: Seq<char>, s: int)
    requires
        file_name_span(p, p.len() as int) == Some((s, p.len() as int)),
        !(p[s] == '.' && last_dot(p, s, p.len() as int) == Some(s + 1)),
    ensures
        backup_path_spec(p) == p + ".bak"@,
{
    let n = p.len() as int;
    reveal_strlit(".bak");
    reveal_strlit(".");
    reveal_strlit("bak");
    lemma_file_name_span_shape(p, n);
    let k = last_dot(p, s, n);
    lemma_last_dot(p, s, n);
    if k is Some && k->0 > s {
        let kk = k->0;
        let ext = p.subrange(kk + 1, n);
        let q = p.subrange(0, n - ext.len());
        assert(q.len() == kk + 1);
        assert(extension_span(p) == Some((kk + 1, n)));
        lemma_component_start_shape(p, n);
        lemma_component_start_is(q, s, kk + 1);
        assert(q[kk] == '.');
        assert(file_name_span(q, kk + 1) == Some((s, kk + 1)));
        assert(last_dot(q, s, kk + 1) == Some(kk));
        assert(set_extension_spec(q, ext + ".bak"@) == q.subrange(0, kk) + "."@ + (ext + ".bak"@));
        assert(q.subrange(0, kk) + "."@ + (ext + ".bak"@) =~= p + ".bak"@);
    } else {
        assert(extension_span(p) is None);
        assert(p.subrange(0, n) + "."@ + "bak"@ =~= p + ".bak"@);
    }
}

proof fn lemma_file_name_span_shape(p: Seq<char>, end: int)
    requires
        0 <= end <= p.len(),
    ensures
        file_name_span(p, end) matches Some((s, e)) ==> 0 <= s < e <= end && s
            == component_start(p, e) && p[e - 1] != '/' && !(e - s == 1 && p[s] == '.') && !(e
            - s == 2 && p[s] == '.' && p[s + 1] == '.'),
    decreases end,
{
    if end > 0 {
        lemma_component_start(p, end);
        if p[end - 1] == '/' {
            lemma_file_name_span_shape(p, end - 1);
        } else {
            let s = component_start(p, end);
            if end - s == 1 && p[s] == '.' && s != 0 {
                lemma_file_name_span_shape(p, s);
            }
        }
    }
}

proof fn lemma_last_dot(p: Seq<char>, s: int, i: int)
    ensures
        last_dot(p, s, i) matches Some(k) ==> s <= k < i && p[k] == '.' && forall|j: int|
            k < j < i ==> p[j] != '.',
        last_dot(p, s, i) is None ==> forall|j: int| s <= j < i ==> p[j] != '.',
    decreases i - s,
{
    if i > s && p[i - 1] != '.' {
        lemma_last_dot(p, s, i - 1);
    }
}

fn component_start_of(p: &str, end: usize) -> (r: usize)
    requires
        end <= p@.len(),
    ensures
        r == component_start(p@, end as int),
    decreases end,
{
    if end == 0 {
        0
    } else if p.get_char(end - 1) == '/' {
        end
    } else {
        component_start_of(p, end - 1)
    }
}

fn file_name_span_of(p: &str, end: usize) -> (r: Option<(usize, usize)>)
    requires
        end <= p@.len(),
    ensures
        match r {
            None => file_name_span(p@, end as int) is None,
            Some((a, b)) => file_name_span(p@, end as int) == Some((a as int, b as int)) && a
                < b <= end,
        },
    decreases end,
{
    if end == 0 {
        return None;
    }
    if p.get_char(end - 1) == '/' {
        return file_name_span_of(p, end - 1);
    }
    let s = component_start_of(p, end);
    proof {
        lemma_component_start(p@, end as int);
    }
    if end - s == 1 && p.get_char(s) == '.' {
        if s == 0 {
            None
        } else {
            file_name_span_of(p, s)
        }
    } else if end - s == 2 && p.get_char(s) == '.' && p.get_char(s + 1) == '.' {
        None
    } else {
        Some((s, end))
    }
}

fn last_dot_of(p: &str, s: usize, i: usize) -> (r: Option<usize>)
    requires
        i <= p@.len(),
    ensures
        match r {
            None => last_dot(p@, s as int, i as int) is None,
            Some(k) => last_dot(p@, s as int, i as int) == Some(k as int) && s <= k < i,
        },
    decreases i - s,
{
    if i <= s {
        None
    } else if p.get_char(i - 1) == '.' {
        Some(i - 1)
    } else {
        last_dot_of(p, s, i - 1)
    }
}

fn extension_span_of(p: &str) -> (r: Option<(usize, usize)>)
    ensures
        match r {
            None => extension_span(p@) is None,
            Some((a, b)) => extension_span(p@) == Some((a as int, b as int)) && a <= b <= p@.len(),
        },
{
    let n = p.unicode_len();
    match file_name_span_of(p, n) {
        None => None,
        Some((s, e)) => match last_dot_of(p, s, e) {
            Some(k) if k > s => Some((k + 1, e)),
            _ => None,
        },
    }
}

fn set_extension_of(q: &str, ext: &str) -> (r: String)
    ensures
        r@ == set_extension_spec(q@, ext@),
{
    let n = q.unicode_len();
    match file_name_span_of(q, n) {
        None => String::from_str(q),
        Some((s, e)) => {
            let stem_end = match last_dot_of(q, s, e) {
                Some(k) if k > s => k,
                _ => e,
            };
            let mut r = String::from_str(q.substring_char(0, stem_end));
            r.append(".");
            r.append(ext);
            r
        },
    }
}

/// The path of the backup copy of a configuration file.
pub fn config_backup_path(p: &str) -> (r: String)
    ensures
        r@ == backup_path_spec(p@),
{
    match extension_span_of(p) {
        None => set_extension_of(p, "bak"),
        Some((a, b)) => {
            let n = p.unicode_len();
            let q = p.substring_char(0, n - (b - a));
            let mut ext = String::from_str(p.substring_char(a, b));
            ext.append(".bak");
            set_extension_of(q, ext.as_str())
        },
    }
}

} // verus!
