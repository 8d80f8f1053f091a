use vstd::prelude::*;

verus! {

/// `String::push`: appends the character.
pub assume_specification[ String::push ](s: &mut String, c: char)
    ensures
        final(s)@ == old(s)@.push(c),
;

/// The decimal digits of a number, without leading zeros.
pub open spec fn decimal_digits(n: nat) -> Seq<char>
    decreases n,
{
    if n < 10 {
        seq![digit(n)]
    } else {
        decimal_digits(n / 10).push(digit(n % 10))
    }
}

/// The character of one digit.
pub open spec fn digit(d: nat) -> char {
    (0x30 + d) as char
}

fn digit_char(d: u64) -> (c: char)
    requires
        d < 10,
    ensures
        c == digit(d as nat),
{
    if d == 0 {
        '0'
    } else if d == 1 {
        '1'
    } else if d == 2 {
        '2'
    } else if d == 3 {
        '3'
    } else if d == 4 {
        '4'
    } else if d == 5 {
        '5'
    } else if d == 6 {
        '6'
    } else if d == 7 {
        '7'
    } else if d == 8 {
        '8'
    } else {
        '9'
    }
}

/// A number in decimal.
pub fn decimal(n: u64) -> (s: String)
    ensures
        s@ == decimal_digits(n as nat),
    decreases n,
{
    if n < 10 {
        let mut s = String::new();
        s.push(digit_char(n));
        assert(s@ =~= decimal_digits(n as nat));
        s
    } else {
        let mut s = decimal(n / 10);
        s.push(digit_char(n % 10));
        s
    }
}

/// The two texts are the same.
pub fn text_eq(a: &str, b: &str) -> (r: bool)
    ensures
        r == (a@ == b@),
{
    a.to_owned() == b.to_owned()
}

/// The characters of a text.
pub fn chars_of(s: &str) -> (chars: Vec<char>)
    ensures
        chars@ == s@,
{
    let mut chars: Vec<char> = Vec::new();
    for c in it: s.chars()
        invariant
            it.seq() == s@,
            chars@ == s@.take(it.index()),
    {
        chars.push(c);
        assert(s@.take(it.index() + 1) =~= s@.take(it.index()).push(c));
    }
    assert(s@.take(s@.len() as int) =~= s@);
    chars
}

/// The text of some characters.
pub fn text_of(chars: &Vec<char>, from: usize, to: usize) -> (s: String)
    requires
        from <= to <= chars@.len(),
    ensures
        s@ == chars@.subrange(from as int, to as int),
{
    let mut s = String::new();
    let mut i: usize = from;
    while i < to
        invariant
            from <= i <= to <= chars@.len(),
            s@ == chars@.subrange(from as int, i as int),
        decreases to - i,
    {
        s.push(chars[i]);
        i = i + 1;
        assert(s@ =~= chars@.subrange(from as int, i as int));
    }
    s
}

/// Two texts in a row.
pub fn join2(a: &str, b: &str) -> (s: String)
    ensures
        s@ == a@ + b@,
{
    let mut s = a.to_owned();
    s.append(b);
    s
}

/// Three texts in a row.
pub fn join3(a: &str, b: &str, c: &str) -> (s: String)
    ensures
        s@ == a@ + b@ + c@,
{
    let mut s = a.to_owned();
    s.append(b);
    s.append(c);
    s
}

/// The first place at or after `from` where `pattern` occurs.
pub open spec fn find_from(s: Seq<char>, pattern: Seq<char>, from: int) -> Option<int>
    decreases s.len() + 1 - from,
{
    if from < 0 || from + pattern.len() > s.len() {
        None
    } else if s.subrange(from, from + pattern.len()) == pattern {
        Some(from)
    } else {
        find_from(s, pattern, from + 1)
    }
}

/// The pattern occurs somewhere.
pub open spec fn contains_text(s: Seq<char>, pattern: Seq<char>) -> bool {
    find_from(s, pattern, 0) is Some
}

/// The pattern stands at the place.
pub fn matches_at(s: &Vec<char>, pattern: &Vec<char>, at: usize) -> (r: bool)
    requires
        at + pattern@.len() <= s@.len(),
    ensures
        r == (s@.subrange(at as int, at + pattern@.len()) == pattern@),
{
    let len: usize = s.len();
    let mut k: usize = 0;
    while k < pattern.len()
        invariant
            k <= pattern@.len(),
            len == s@.len(),
            at + pattern@.len() <= len,
            forall|j: int| 0 <= j < k ==> s@[at + j] == pattern@[j],
        decreases pattern@.len() - k,
    {
        if s[at + k] != pattern[k] {
            assert(s@.subrange(at as int, at + pattern@.len())[k as int] != pattern@[k as int]);
            return false;
        }
        k = k + 1;
    }
    assert(s@.subrange(at as int, at + pattern@.len()) =~= pattern@);
    true
}

pub fn find(s: &Vec<char>, pattern: &Vec<char>, from: usize) -> (found: Option<usize>)
    ensures
        match found {
            Some(i) => find_from(s@, pattern@, from as int) == Some(i as int),
            None => find_from(s@, pattern@, from as int) is None,
        },
{
    if from > s.len() {
        return None;
    }
    let mut at: usize = from;
    while at <= s.len() && pattern.len() <= s.len() - at
        invariant
            find_from(s@, pattern@, from as int) == find_from(s@, pattern@, at as int),
            at <= s@.len() + 1,
        decreases s@.len() + 1 - at,
    {
        if matches_at(s, pattern, at) {
            return Some(at);
        }
        if at == s.len() {
            assert(find_from(s@, pattern@, at as int + 1) is None);
            return None;
        }
        at = at + 1;
    }
    None
}

/// What is found lies where the pattern stands, at or after the start.
pub proof fn lemma_found(s: Seq<char>, pattern: Seq<char>, from: int)
    requires
        find_from(s, pattern, from) is Some,
    ensures
        ({
            let i = find_from(s, pattern, from)->0;
            &&& from <= i
            &&& i + pattern.len() <= s.len()
            &&& s.subrange(i, i + pattern.len()) == pattern
        }),
    decreases s.len() + 1 - from,
{
    if s.subrange(from, from + pattern.len()) != pattern {
        lemma_found(s, pattern, from + 1);
    }
}

pub open spec fn starts_with(s: Seq<char>, prefix: Seq<char>) -> bool {
    prefix.len() <= s.len() && s.take(prefix.len() as int) == prefix
}

pub open spec fn ends_with(s: Seq<char>, suffix: Seq<char>) -> bool {
    suffix.len() <= s.len() && s.skip(s.len() - suffix.len()) == suffix
}

/// White space: the characters with that property in Unicode.
pub open spec fn white(c: char) -> bool {
    ||| '\u{9}' <= c <= '\u{d}'
    ||| c == ' '
    ||| c == '\u{85}'
    ||| c == '\u{a0}'
    ||| c == '\u{1680}'
    ||| '\u{2000}' <= c <= '\u{200a}'
    ||| c == '\u{2028}'
    ||| c == '\u{2029}'
    ||| c == '\u{202f}'
    ||| c == '\u{205f}'
    ||| c == '\u{3000}'
}

pub fn is_white(c: char) -> (r: bool)
    ensures
        r == white(c),
{
    ('\u{9}' <= c && c <= '\u{d}') || c == ' ' || c == '\u{85}' || c == '\u{a0}' || c == '\u{1680}'
        || ('\u{2000}' <= c && c <= '\u{200a}') || c == '\u{2028}' || c == '\u{2029}' || c
        == '\u{202f}' || c == '\u{205f}' || c == '\u{3000}'
}

/// The text without white space at either end.
pub open spec fn trimmed(s: Seq<char>) -> Seq<char>
    decreases s.len(),
{
    if s.len() > 0 && white(s[0]) {
        trimmed(s.skip(1))
    } else if s.len() > 0 && white(s.last()) {
        trimmed(s.drop_last())
    } else {
        s
    }
}

/// Where the trimmed part of `s[from..to]` begins and ends.
pub fn trim(s: &Vec<char>, from: usize, to: usize) -> (range: (usize, usize))
    requires
        from <= to <= s@.len(),
    ensures
        from <= range.0 <= range.1 <= to,
        s@.subrange(range.0 as int, range.1 as int) == trimmed(
            s@.subrange(from as int, to as int),
        ),
{
    let mut a: usize = from;
    let mut b: usize = to;
    let ghost whole = trimmed(s@.subrange(from as int, to as int));
    while a < b && is_white(s[a])
        invariant
            from <= a <= b <= to <= s@.len(),
            b == to,
            trimmed(s@.subrange(a as int, b as int)) == whole,
        decreases b - a,
    {
        assert(s@.subrange(a as int, b as int).skip(1) =~= s@.subrange(a as int + 1, b as int));
        a = a + 1;
    }
    while a < b && is_white(s[b - 1])
        invariant
            from <= a <= b <= to <= s@.len(),
            a < b ==> !white(s@[a as int]),
            trimmed(s@.subrange(a as int, b as int)) == whole,
        decreases b - a,
    {
        assert(s@.subrange(a as int, b as int).drop_last() =~= s@.subrange(a as int, b - 1));
        b = b - 1;
    }
    (a, b)
}

/// The text without white space at either end.
pub fn trim_text(text: &str) -> (r: String)
    ensures
        r@ == trimmed(text@),
{
    let chars = chars_of(text);
    let n: usize = chars.len();
    let (from, to): (usize, usize) = trim(&chars, 0, n);
    assert(chars@.subrange(0, n as int) =~= text@);
    text_of(&chars, from, to)
}

/// The trimmed text, unless nothing is left.
pub open spec fn nonempty(s: Seq<char>) -> Option<Seq<char>> {
    if trimmed(s).len() > 0 {
        Some(trimmed(s))
    } else {
        None
    }
}

pub fn nonempty_trimmed(text: &str) -> (r: Option<String>)
    ensures
        text_view(r) == nonempty(text@),
{
    let chars = chars_of(text);
    let n: usize = chars.len();
    let (from, to): (usize, usize) = trim(&chars, 0, n);
    assert(chars@.subrange(0, n as int) =~= text@);
    if from == to {
        return None;
    }
    Some(text_of(&chars, from, to))
}

/// Trimming leaves no white space at either end.
pub proof fn lemma_trimmed(s: Seq<char>)
    ensures
        trimmed(s).len() <= s.len(),
        trimmed(s).len() > 0 ==> !white(trimmed(s)[0]) && !white(trimmed(s).last()),
    decreases s.len(),
{
    if s.len() > 0 && white(s[0]) {
        lemma_trimmed(s.skip(1));
    } else if s.len() > 0 && white(s.last()) {
        lemma_trimmed(s.drop_last());
    }
}

/// The text begins with the prefix.
pub fn text_starts(s: &str, prefix: &str) -> (r: bool)
    ensures
        r == starts_with(s@, prefix@),
{
    let chars = chars_of(s);
    let pattern = chars_of(prefix);
    if pattern.len() > chars.len() {
        return false;
    }
    assert(s@.take(prefix@.len() as int) =~= s@.subrange(0, prefix@.len() as int));
    matches_at(&chars, &pattern, 0)
}

/// The text ends with the suffix.
pub fn text_ends(s: &str, suffix: &str) -> (r: bool)
    ensures
        r == ends_with(s@, suffix@),
{
    let chars = chars_of(s);
    let pattern = chars_of(suffix);
    if pattern.len() > chars.len() {
        return false;
    }
    let at: usize = chars.len() - pattern.len();
    assert(s@.skip(at as int) =~= s@.subrange(at as int, at + suffix@.len()));
    matches_at(&chars, &pattern, at)
}

/// The text holds the pattern somewhere.
pub fn text_contains(s: &str, pattern: &str) -> (r: bool)
    ensures
        r == contains_text(s@, pattern@),
{
    find(&chars_of(s), &chars_of(pattern), 0).is_some()
}

/// The ASCII lower-case form of a character.
pub open spec fn lower(c: char) -> char {
    if 'A' <= c <= 'Z' {
        ((c as u8) + 32) as char
    } else {
        c
    }
}

/// The text with its ASCII letters in lower case.
pub open spec fn lowered(s: Seq<char>) -> Seq<char> {
    s.map_values(|c: char| lower(c))
}

fn lower_char(c: char) -> (r: char)
    ensures
        r == lower(c),
{
    if 'A' <= c && c <= 'Z' {
        ((c as u8) + 32) as char
    } else {
        c
    }
}

/// The text with its ASCII letters in lower case.
pub fn to_lower(s: &str) -> (r: String)
    ensures
        r@ == lowered(s@),
{
    let chars = chars_of(s);
    let mut r = String::new();
    let mut i: usize = 0;
    while i < chars.len()
        invariant
            i <= chars@.len(),
            chars@ == s@,
            r@ == lowered(s@.take(i as int)),
        decreases chars@.len() - i,
    {
        r.push(lower_char(chars[i]));
        i = i + 1;
        assert(r@ =~= lowered(s@.take(i as int)));
    }
    assert(s@.take(i as int) =~= s@);
    r
}

/// The two texts differ in the case of ASCII letters at most.
pub fn same_ignoring_case(a: &str, b: &str) -> (r: bool)
    ensures
        r == (lowered(a@) == lowered(b@)),
{
    text_eq(to_lower(a).as_str(), to_lower(b).as_str())
}

/// What an optional text holds.
pub open spec fn text_view(text: Option<String>) -> Option<Seq<char>> {
    match text {
        Some(s) => Some(s@),
        None => None,
    }
}

/// What a list of texts holds.
pub open spec fn texts(list: Seq<String>) -> Seq<Seq<char>> {
    Seq::new(list.len(), |i: int| list[i]@)
}

/// A copy of some texts.
pub fn copy_texts(v: &Vec<String>) -> (copies: Vec<String>)
    ensures
        texts(copies@) == texts(v@),
        copies@ == v@,
{
    let mut copies: Vec<String> = Vec::new();
    let mut i: usize = 0;
    while i < v.len()
        invariant
            i <= v@.len(),
            copies@ == v@.take(i as int),
        decreases v@.len() - i,
    {
        copies.push(v[i].clone());
        i = i + 1;
        assert(copies@ =~= v@.take(i as int));
    }
    assert(copies@ =~= v@);
    copies
}

/// A count in decimal.
pub open spec fn digits(n: usize) -> Seq<char> {
    decimal_digits(n as nat)
}

pub fn count_text(n: usize) -> (s: String)
    ensures
        s@ == digits(n),
{
    decimal(n as u64)
}

/// Counts in decimal with commas between them.
pub open spec fn comma_separated(counts: Seq<usize>) -> Seq<char>
    decreases counts.len(),
{
    if counts.len() == 0 {
        Seq::empty()
    } else if counts.len() == 1 {
        digits(counts[0])
    } else {
        comma_separated(counts.drop_last()) + ", "@ + digits(counts.last())
    }
}

/// Counts between square brackets.
pub open spec fn bracketed(counts: Seq<usize>) -> Seq<char> {
    "["@ + comma_separated(counts) + "]"@
}

pub fn shape_text(counts: &[usize]) -> (s: String)
    ensures
        s@ == bracketed(counts@),
{
    let mut list: String = "".to_owned();
    proof {
        reveal_strlit("");
        assert(list@ =~= Seq::<char>::empty());
    }
    let mut i: usize = 0;
    while i < counts.len()
        invariant
            i <= counts@.len(),
            list@ == comma_separated(counts@.take(i as int)),
        decreases counts@.len() - i,
    {
        let count: String = count_text(counts[i]);
        proof {
            assert(counts@.take(i + 1).drop_last() =~= counts@.take(i as int));
        }
        if i == 0 {
            list = count;
        } else {
            list = join3(list.as_str(), ", ", count.as_str());
        }
        i = i + 1;
    }
    assert(counts@.take(i as int) =~= counts@);
    join3("[", list.as_str(), "]")
}

/// A text in the form in which Rust's `Debug` formatting shows it.
pub uninterp spec fn quoted(s: Seq<char>) -> Seq<char>;

/// `{:?}` on a `str`, from the standard library: the text between double quotes,
/// with its special characters escaped. The form is a function of the text alone.
#[verifier::external_body]
pub(crate) fn quoted_text(s: &str) -> (text: String)
    ensures
        text@ == quoted(s@),
{
    format!("{:?}", s)
}

/// `a` comes strictly before `b` in the order of their characters.
pub open spec fn text_before(a: Seq<char>, b: Seq<char>) -> bool
    decreases a.len(),
{
    if b.len() == 0 {
        false
    } else if a.len() == 0 {
        true
    } else if a[0] == b[0] {
        text_before(a.skip(1), b.skip(1))
    } else {
        a[0] < b[0]
    }
}

/// Of two different texts one comes before the other, and not the other way round.
pub proof fn lemma_text_order(a: Seq<char>, b: Seq<char>)
    ensures
        a == b ==> !text_before(a, b),
        a != b ==> (text_before(a, b) != text_before(b, a)),
    decreases a.len(),
{
    if a.len() > 0 && b.len() > 0 && a[0] == b[0] {
        lemma_text_order(a.skip(1), b.skip(1));
        if a.skip(1) == b.skip(1) {
            assert(a =~= seq![a[0]] + a.skip(1));
            assert(b =~= seq![b[0]] + b.skip(1));
        }
    } else if a.len() == 0 && b.len() == 0 {
        assert(a =~= b);
    }
}

/// The order carries over.
pub proof fn lemma_text_order_transitive(a: Seq<char>, b: Seq<char>, c: Seq<char>)
    requires
        text_before(a, b),
        text_before(b, c),
    ensures
        text_before(a, c),
    decreases a.len(),
{
    if a.len() > 0 && a[0] == b[0] && b[0] == c[0] {
        lemma_text_order_transitive(a.skip(1), b.skip(1), c.skip(1));
    }
}

/// Whether `a` comes strictly before `b`.
pub fn is_text_before(a: &str, b: &str) -> (r: bool)
    ensures
        r == text_before(a@, b@),
{
    let x = chars_of(a);
    let y = chars_of(b);
    let mut i: usize = 0;
    assert(a@.skip(0) =~= a@);
    assert(b@.skip(0) =~= b@);
    while i < x.len() && i < y.len()
        invariant
            i <= x@.len(),
            i <= y@.len(),
            x@ == a@,
            y@ == b@,
            text_before(a@, b@) == text_before(a@.skip(i as int), b@.skip(i as int)),
        decreases x@.len() - i,
    {
        assert(a@.skip(i as int)[0] == x@[i as int]);
        assert(b@.skip(i as int)[0] == y@[i as int]);
        if x[i] != y[i] {
            return x[i] < y[i];
        }
        assert(a@.skip(i as int).skip(1) =~= a@.skip(i as int + 1));
        assert(b@.skip(i as int).skip(1) =~= b@.skip(i as int + 1));
        i = i + 1;
    }
    i < y.len()
}

/// The number that some decimal digits stand for.
pub open spec fn decimal_value(s: Seq<char>) -> int
    decreases s.len(),
{
    if s.len() == 0 {
        0
    } else {
        decimal_value(s.drop_last()) * 10 + (s.last() as int - '0' as int)
    }
}

/// The text without a plus sign in front.
pub open spec fn without_plus(s: Seq<char>) -> Seq<char> {
    if s.len() > 0 && s[0] == '+' {
        s.skip(1)
    } else {
        s
    }
}

/// The count that a text gives: decimal digits, with a plus sign in front or not.
pub open spec fn parsed_count(s: Seq<char>) -> Option<int> {
    let digits = without_plus(s);
    if digits.len() > 0 && (forall|i: int| 0 <= i < digits.len() ==> '0' <= #[trigger] digits[i]
        <= '9') && decimal_value(digits) <= usize::MAX {
        Some(decimal_value(digits))
    } else {
        None
    }
}

proof fn lemma_decimal_value_grows(s: Seq<char>, i: int)
    requires
        0 <= i <= s.len(),
        forall|k: int| 0 <= k < s.len() ==> '0' <= #[trigger] s[k] <= '9',
    ensures
        0 <= decimal_value(s.take(i)) <= decimal_value(s),
    decreases s.len(),
{
    if i == s.len() {
        assert(s.take(i) =~= s);
        lemma_decimal_value_nonneg(s);
    } else {
        let front = s.drop_last();
        lemma_decimal_value_grows(front, i);
        assert(front.take(i) =~= s.take(i));
        assert(s.last() == s[s.len() - 1]);
    }
}

proof fn lemma_decimal_value_nonneg(s: Seq<char>)
    requires
        forall|k: int| 0 <= k < s.len() ==> '0' <= #[trigger] s[k] <= '9',
    ensures
        decimal_value(s) >= 0,
    decreases s.len(),
{
    if s.len() > 0 {
        lemma_decimal_value_nonneg(s.drop_last());
        assert(s.last() == s[s.len() - 1]);
    }
}

/// Read a count.
pub fn parse_count(text: &str) -> (count: Option<usize>)
    ensures
        match count {
            Some(n) => parsed_count(text@) == Some(n as int),
            None => parsed_count(text@) is None,
        },
{
    let chars = chars_of(text);
    let start: usize = if chars.len() > 0 && chars[0] == '+' {
        1
    } else {
        0
    };
    let ghost digits = without_plus(text@);
    assert(digits =~= text@.skip(start as int));
    if start == chars.len() {
        return None;
    }
    let mut i: usize = start;
    while i < chars.len()
        invariant
            start <= i <= chars@.len(),
            chars@ == text@,
            digits == text@.skip(start as int),
            digits == without_plus(text@),
            digits.len() > 0,
            forall|k: int| 0 <= k < i - start ==> '0' <= #[trigger] digits[k] <= '9',
        decreases chars@.len() - i,
    {
        assert(digits[i - start] == chars@[i as int]);
        if chars[i] < '0' || chars[i] > '9' {
            return None;
        }
        i = i + 1;
    }
    let mut value: usize = 0;
    let mut j: usize = start;
    assert(digits.take(0) =~= Seq::<char>::empty());
    while j < chars.len()
        invariant
            start <= j <= chars@.len(),
            chars@ == text@,
            digits == text@.skip(start as int),
            digits == without_plus(text@),
            digits.len() > 0,
            forall|k: int| 0 <= k < digits.len() ==> '0' <= #[trigger] digits[k] <= '9',
            value == decimal_value(digits.take(j - start)),
        decreases chars@.len() - j,
    {
        let c: char = chars[j];
        let ghost k = j - start;
        assert(digits[k] == c);
        assert(digits.take(k + 1).drop_last() =~= digits.take(k));
        assert(digits.take(k + 1).last() == c);
        proof {
            lemma_decimal_value_grows(digits, k + 1);
        }
        let digit: usize = (c as u32 - '0' as u32) as usize;
        value =
        match value.checked_mul(10) {
            Some(tenfold) => match tenfold.checked_add(digit) {
                Some(sum) => sum,
                None => {
                    return None;
                },
            },
            None => {
                return None;
            },
        };
        j = j + 1;
    }
    assert(digits.take(j - start) =~= digits);
    Some(value)
}

/// Reading the decimal digits of a number gives the number, and there is no zero in front.
pub proof fn lemma_decimal_round_trip(n: nat)
    ensures
        decimal_value(decimal_digits(n)) == n,
        decimal_digits(n).len() > 0,
        forall|i: int| 0 <= i < decimal_digits(n).len() ==> '0' <= #[trigger] decimal_digits(n)[i] <= '9',
        n > 0 ==> decimal_digits(n)[0] != '0',
        n <= usize::MAX ==> parsed_count(decimal_digits(n)) == Some(n as int),
    decreases n,
{
    reveal_with_fuel(decimal_value, 2);
    let text = decimal_digits(n);
    if n >= 10 {
        lemma_decimal_round_trip(n / 10);
        assert(text.drop_last() =~= decimal_digits(n / 10));
    } else {
        assert(text.drop_last() =~= Seq::<char>::empty());
    }
    assert(without_plus(text) == text);
}

/// The first place at which a pattern occurs: it does not occur before, and where none is
/// found it does not occur at all.
pub proof fn lemma_found_first(s: Seq<char>, pattern: Seq<char>, from: int)
    requires
        from >= 0,
    ensures
        match find_from(s, pattern, from) {
            Some(i) => forall|j: int|
                from <= j < i ==> #[trigger] s.subrange(j, j + pattern.len()) != pattern,
            None => forall|j: int|
                from <= j && j + pattern.len() <= s.len() ==> #[trigger] s.subrange(
                    j,
                    j + pattern.len(),
                ) != pattern,
        },
    decreases s.len() + 1 - from,
{
    if from + pattern.len() <= s.len() && s.subrange(from, from + pattern.len()) != pattern {
        lemma_found_first(s, pattern, from + 1);
    }
}

/// Trimming takes white space off both ends, and nothing else.
pub proof fn lemma_trimmed_parts(s: Seq<char>) -> (ends: (Seq<char>, Seq<char>))
    ensures
        s == ends.0 + trimmed(s) + ends.1,
        forall|i: int| 0 <= i < ends.0.len() ==> white(#[trigger] (ends.0)[i]),
        forall|i: int| 0 <= i < ends.1.len() ==> white(#[trigger] (ends.1)[i]),
    decreases s.len(),
{
    if s.len() > 0 && white(s[0]) {
        let rest = lemma_trimmed_parts(s.skip(1));
        let front = seq![s[0]] + rest.0;
        assert(s =~= front + trimmed(s) + rest.1) by {
            assert(s =~= seq![s[0]] + s.skip(1));
        }
        (front, rest.1)
    } else if s.len() > 0 && white(s.last()) {
        let rest = lemma_trimmed_parts(s.drop_last());
        let back = rest.1.push(s.last());
        assert(s =~= rest.0 + trimmed(s) + back) by {
            assert(s =~= s.drop_last().push(s.last()));
        }
        (rest.0, back)
    } else {
        assert(s =~= Seq::<char>::empty() + s + Seq::<char>::empty());
        (Seq::empty(), Seq::empty())
    }
}

/// Texts are ordered by the first character in which they differ; the beginning of a text
/// comes before the text.
pub proof fn lemma_text_order_by_character(a: Seq<char>, b: Seq<char>, n: int)
    requires
        0 <= n <= a.len(),
        n <= b.len(),
        a.take(n) == b.take(n),
    ensures
        n == a.len() && n < b.len() ==> text_before(a, b),
        n < a.len() && n < b.len() && a[n] < b[n] ==> text_before(a, b),
        n < a.len() && n < b.len() && a[n] > b[n] ==> !text_before(a, b),
        n == b.len() ==> !text_before(a, b),
    decreases n,
{
    if n > 0 {
        assert(a[0] == a.take(n)[0] && b[0] == b.take(n)[0]);
        assert(a.skip(1).take(n - 1) =~= a.take(n).skip(1));
        assert(b.skip(1).take(n - 1) =~= b.take(n).skip(1));
        lemma_text_order_by_character(a.skip(1), b.skip(1), n - 1);
    }
}

/// Only the letters from A to Z change when a text is lowered, each to its small form.
pub proof fn lemma_lowered(s: Seq<char>, i: int)
    requires
        0 <= i < s.len(),
    ensures
        lowered(s).len() == s.len(),
        0x41 <= s[i] as int <= 0x5a ==> lowered(s)[i] as int == s[i] as int + 32,
        !(0x41 <= s[i] as int <= 0x5a) ==> lowered(s)[i] == s[i],
{
}

/// Where a pattern occurs at a place and at none before, it is found there.
pub proof fn lemma_find_unique(s: Seq<char>, pattern: Seq<char>, from: int, i: int)
    requires
        0 <= from <= i,
        i + pattern.len() <= s.len(),
        s.subrange(i, i + pattern.len()) == pattern,
        forall|j: int| from <= j < i ==> #[trigger] s.subrange(j, j + pattern.len()) != pattern,
    ensures
        find_from(s, pattern, from) == Some(i),
    decreases i - from,
{
    if from < i {
        assert(s.subrange(from, from + pattern.len()) != pattern);
        lemma_find_unique(s, pattern, from + 1, i);
    }
}

/// A search from a place on is a search in the rest.
pub proof fn lemma_find_in_rest(s: Seq<char>, pattern: Seq<char>, start: int, from: int)
    requires
        0 <= start <= s.len(),
        from >= 0,
    ensures
        find_from(s, pattern, start + from) == (match find_from(s.skip(start), pattern, from) {
            Some(i) => Some(start + i),
            None => None,
        }),
    decreases s.len() + 1 - from,
{
    let rest = s.skip(start);
    if from + pattern.len() <= rest.len() {
        assert(rest.subrange(from, from + pattern.len()) =~= s.subrange(
            start + from,
            start + from + pattern.len(),
        ));
        if rest.subrange(from, from + pattern.len()) != pattern {
            lemma_find_in_rest(s, pattern, start, from + 1);
        }
    }
}

/// Where a pattern first ends a text, it is found there in any longer text.
pub proof fn lemma_find_at_end(front: Seq<char>, pattern: Seq<char>, rest: Seq<char>)
    requires
        find_from(front + pattern, pattern, 0) == Some(front.len() as int),
    ensures
        find_from(front + pattern + rest, pattern, 0) == Some(front.len() as int),
{
    let s = front + pattern;
    let whole = front + pattern + rest;
    let i = front.len() as int;
    lemma_found_first(s, pattern, 0);
    assert(whole.subrange(i, i + pattern.len()) =~= pattern);
    assert forall|j: int| 0 <= j < i implies #[trigger] whole.subrange(j, j + pattern.len())
        != pattern by {
        assert(whole.subrange(j, j + pattern.len()) =~= s.subrange(j, j + pattern.len()));
    }
    lemma_find_unique(whole, pattern, 0, i);
}

/// A text contains what stands somewhere in it, and nothing else.
pub proof fn lemma_contains_text(s: Seq<char>, pattern: Seq<char>)
    ensures
        contains_text(s, pattern) <==> exists|i: int|
            0 <= i && i + pattern.len() <= s.len() && #[trigger] s.subrange(i, i + pattern.len())
                == pattern,
{
    lemma_found_first(s, pattern, 0);
    lemma_found_there(s, pattern, 0);
}

proof fn lemma_found_there(s: Seq<char>, pattern: Seq<char>, from: int)
    requires
        from >= 0,
    ensures
        find_from(s, pattern, from) matches Some(i) ==> from <= i && i + pattern.len() <= s.len()
            && s.subrange(i, i + pattern.len()) == pattern,
    decreases s.len() + 1 - from,
{
    if from + pattern.len() <= s.len() && s.subrange(from, from + pattern.len()) != pattern {
        lemma_found_there(s, pattern, from + 1);
    }
}

} // verus!
