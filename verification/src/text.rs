//! Text as sequences of characters: rendering numbers, joining lines, and the small searches that
//! line grammars are written with.
use vstd::prelude::*;
use vstd::slice::slice_subrange;

verus! {

// ---------------------------------------------------------------------------
// Standard-library operations that are believed.
// ---------------------------------------------------------------------------

/// `String::push` adds one character at the end of the string.
pub assume_specification[ String::push ](s: &mut String, c: char)
    ensures
        final(s)@ == old(s)@.push(c),
;

/// `String::push_str` adds the characters of a string slice at the end of the string.
pub assume_specification[ String::push_str ](s: &mut String, other: &str)
    ensures
        final(s)@ == old(s)@ + other@,
;

/// Whether the Unicode tables class a character as alphabetic or numeric.
pub uninterp spec fn alphanumeric(c: char) -> bool;

/// `char::is_alphanumeric` looks the character up in fixed Unicode tables; the answer depends on
/// the character alone.
pub assume_specification[ char::is_alphanumeric ](c: char) -> (b: bool)
    ensures
        b == alphanumeric(c),
;

/// The Unicode lower-case rendering of a text.
pub uninterp spec fn lowercase(s: Seq<char>) -> Seq<char>;

/// `str::to_lowercase` maps a text to its Unicode lower-case form, a function of the text alone.
pub assume_specification[ str::to_lowercase ](s: &str) -> (r: String)
    ensures
        r@ == lowercase(s@),
;

/// A text between double quotes, with what would not print escaped.
pub uninterp spec fn debug_quote(s: Seq<char>) -> Seq<char>;

/// The `Debug` rendering of a string slice, which `format!` takes from the standard library: the
/// text between double quotes with escapes, a function of the text alone.
#[verifier::external_body]
pub(crate) fn debug_quoted(s: &str) -> (r: String)
    ensures
        r@ == debug_quote(s@),
{
    format!("{s:?}")
}

// ---------------------------------------------------------------------------
// Decimal numbers.
// ---------------------------------------------------------------------------

/// The decimal digit of a number below ten.
pub open spec fn digit(n: nat) -> char {
    ('0' as nat + n) as char
}

/// The decimal rendering of a number, without leading zeros.
pub open spec fn dec(n: nat) -> Seq<char>
    decreases n,
{
    if n < 10 {
        seq![digit(n)]
    } else {
        dec(n / 10).push(digit(n % 10))
    }
}

/// The characters `0` to `9`.
pub open spec fn is_digit(c: char) -> bool {
    '0' <= c && c <= '9'
}

/// Every character is a decimal digit.
pub open spec fn all_digits(s: Seq<char>) -> bool {
    forall|i: int| 0 <= i < s.len() ==> is_digit(#[trigger] s[i])
}

/// The number a sequence of digits denotes.
pub open spec fn dec_value(s: Seq<char>) -> nat
    decreases s.len(),
{
    if s.len() == 0 {
        0
    } else {
        dec_value(s.drop_last()) * 10 + (s.last() as nat - '0' as nat) as nat
    }
}

/// A text without one leading `+`.
pub open spec fn unsigned_part(s: Seq<char>) -> Seq<char> {
    if s.len() > 0 && s[0] == '+' {
        s.skip(1)
    } else {
        s
    }
}

/// A text read as an unsigned number not above `max`: an optional `+`, then at least one digit and
/// nothing else.
pub open spec fn number(s: Seq<char>, max: nat) -> Option<nat> {
    let d = unsigned_part(s);
    if d.len() > 0 && all_digits(d) && dec_value(d) <= max {
        Some(dec_value(d))
    } else {
        None
    }
}

/// A longer run of digits denotes no smaller number.
proof fn lemma_dec_value_grows(s: Seq<char>, i: int)
    requires
        all_digits(s),
        0 <= i <= s.len(),
    ensures
        dec_value(s.take(i)) <= dec_value(s),
    decreases s.len() - i,
{
    if i == s.len() {
        assert(s.take(i) =~= s);
    } else {
        lemma_dec_value_grows(s, i + 1);
        assert(s.take(i + 1).drop_last() =~= s.take(i));
        assert(is_digit(s[i]));
    }
}

/// A rendered number consists of digits, at least one, and denotes the number.
pub proof fn lemma_dec(n: nat)
    ensures
        dec(n).len() > 0,
        all_digits(dec(n)),
        dec_value(dec(n)) == n,
    decreases n,
{
    if n < 10 {
        assert(dec(n).drop_last() =~= Seq::<char>::empty());
        assert(dec_value(dec(n).drop_last()) == 0);
        assert(dec(n).last() == digit(n));
    } else {
        lemma_dec(n / 10);
        assert(dec(n).drop_last() =~= dec(n / 10));
        assert(is_digit(digit(n % 10)));
    }
}

/// Reading a rendered number gives the number back.
pub proof fn number_of_dec(n: nat, max: nat)
    requires
        n <= max,
    ensures
        number(dec(n), max) == Some(n),
{
    lemma_dec(n);
    assert(is_digit(dec(n)[0]));
}

/// The digit character of a number below ten.
fn digit_char(n: u64) -> (c: char)
    requires
        n < 10,
    ensures
        c == digit(n as nat),
{
    (('0' as u8) + (n as u8)) as char
}

/// Renders a number in decimal.
pub fn dec_text(n: u64) -> (s: String)
    ensures
        s@ == dec(n as nat),
    decreases n,
{
    if n < 10 {
        let mut s = String::new();
        s.push(digit_char(n));
        assert(s@ =~= seq![digit(n as nat)]);
        s
    } else {
        let mut s = dec_text(n / 10);
        s.push(digit_char(n % 10));
        s
    }
}

/// Reads an unsigned number not above `max`.
pub fn parse_number(s: &[char], max: u64) -> (r: Option<u64>)
    ensures
        match r {
            Some(n) => number(s@, max as nat) == Some(n as nat),
            None => number(s@, max as nat) is None,
        },
{
    let start: usize = if s.len() > 0 && s[0] == '+' { 1 } else { 0 };
    let ghost d = unsigned_part(s@);
    assert(d =~= s@.skip(start as int));
    if s.len() == start {
        return None;
    }
    let mut value: u64 = 0;
    let mut i: usize = start;
    assert(d.take(0) =~= Seq::<char>::empty());
    while i < s.len()
        invariant
            start <= i <= s.len(),
            start < s.len(),
            d == unsigned_part(s@),
            d =~= s@.skip(start as int),
            d.len() == s.len() - start,
            value == dec_value(d.take(i - start)),
            value <= max,
            forall|k: int| 0 <= k < i - start ==> is_digit(#[trigger] d[k]),
        decreases s.len() - i,
    {
        let c: char = s[i];
        assert(d[i - start] == c);
        if c < '0' || c > '9' {
            assert(!is_digit(d[i - start]));
            return None;
        }
        let v: u64 = (c as u64) - ('0' as u64);
        assert(d.take(i - start + 1).drop_last() =~= d.take(i - start));
        assert(d.take(i - start + 1).last() == c);
        let next: u128 = (value as u128) * 10 + (v as u128);
        assert(next == dec_value(d.take(i - start + 1)));
        if next > max as u128 {
            proof {
                if all_digits(d) {
                    lemma_dec_value_grows(d, i - start + 1);
                }
            }
            return None;
        }
        value = next as u64;
        i = i + 1;
    }
    assert(d.take(i - start) =~= d);
    Some(value)
}

// ---------------------------------------------------------------------------
// White space.
// ---------------------------------------------------------------------------

/// The characters with the Unicode property White_Space.
pub open spec fn is_space(c: char) -> bool {
    let n = c as u32;
    ||| 0x09 <= n <= 0x0D
    ||| n == 0x20
    ||| n == 0x85
    ||| n == 0xA0
    ||| n == 0x1680
    ||| 0x2000 <= n <= 0x200A
    ||| n == 0x2028
    ||| n == 0x2029
    ||| n == 0x202F
    ||| n == 0x205F
    ||| n == 0x3000
}

/// Whether a character is white space.
pub fn space(c: char) -> (b: bool)
    ensures
        b == is_space(c),
{
    let n: u32 = c as u32;
    (0x09 <= n && n <= 0x0D) || n == 0x20 || n == 0x85 || n == 0xA0 || n == 0x1680 || (0x2000 <= n
        && n <= 0x200A) || n == 0x2028 || n == 0x2029 || n == 0x202F || n == 0x205F || n == 0x3000
}

/// A text without its leading white space.
pub open spec fn trim_start(s: Seq<char>) -> Seq<char>
    decreases s.len(),
{
    if s.len() > 0 && is_space(s[0]) {
        trim_start(s.skip(1))
    } else {
        s
    }
}

/// A text without its trailing white space.
pub open spec fn trim_end(s: Seq<char>) -> Seq<char>
    decreases s.len(),
{
    if s.len() > 0 && is_space(s.last()) {
        trim_end(s.drop_last())
    } else {
        s
    }
}

/// A text without white space at either end.
pub open spec fn trim(s: Seq<char>) -> Seq<char> {
    trim_end(trim_start(s))
}

/// Drops leading white space.
pub fn trimmed_start(s: &[char]) -> (r: &[char])
    ensures
        r@ == trim_start(s@),
{
    let mut i: usize = 0;
    assert(s@.skip(0) =~= s@);
    while i < s.len() && space(s[i])
        invariant
            0 <= i <= s.len(),
            trim_start(s@) == trim_start(s@.skip(i as int)),
        decreases s.len() - i,
    {
        assert(s@.skip(i as int).skip(1) =~= s@.skip(i + 1));
        i = i + 1;
    }
    let r = slice_subrange(s, i, s.len());
    assert(r@ =~= s@.skip(i as int));
    r
}

/// Drops trailing white space.
pub fn trimmed_end(s: &[char]) -> (r: &[char])
    ensures
        r@ == trim_end(s@),
{
    let mut i: usize = s.len();
    assert(s@.take(s.len() as int) =~= s@);
    while i > 0 && space(s[i - 1])
        invariant
            0 <= i <= s.len(),
            trim_end(s@) == trim_end(s@.take(i as int)),
        decreases i,
    {
        assert(s@.take(i as int).drop_last() =~= s@.take(i - 1));
        i = i - 1;
    }
    let r = slice_subrange(s, 0, i);
    assert(r@ =~= s@.take(i as int));
    r
}

/// Drops white space at both ends.
pub fn trimmed(s: &[char]) -> (r: &[char])
    ensures
        r@ == trim(s@),
{
    trimmed_end(trimmed_start(s))
}

/// No character is white space.
pub open spec fn no_space(s: Seq<char>) -> bool {
    forall|i: int| 0 <= i < s.len() ==> !is_space(#[trigger] s[i])
}

/// Whether no character is white space.
pub fn spaceless(s: &str) -> (b: bool)
    ensures
        b == no_space(s@),
{
    let v = chars_of(s);
    let mut i: usize = 0;
    while i < v.len()
        invariant
            0 <= i <= v.len(),
            v@ == s@,
            forall|k: int| 0 <= k < i ==> !is_space(#[trigger] s@[k]),
        decreases v.len() - i,
    {
        if space(v[i]) {
            assert(is_space(s@[i as int]));
            return false;
        }
        i = i + 1;
    }
    true
}

// ---------------------------------------------------------------------------
// Between strings and character vectors.
// ---------------------------------------------------------------------------

/// The characters of a string.
pub fn chars_of(s: &str) -> (v: Vec<char>)
    ensures
        v@ == s@,
{
    let mut v: Vec<char> = Vec::new();
    for c in it: s.chars()
        invariant
            it.seq() == s@,
            v@ == it.seq().take(it.index()),
    {
        v.push(c);
    }
    assert(v@ =~= s@);
    v
}

/// A string of the given characters.
pub fn text_of(s: &[char]) -> (r: String)
    ensures
        r@ == s@,
{
    let mut r = String::new();
    let mut i: usize = 0;
    assert(r@ =~= s@.take(0));
    while i < s.len()
        invariant
            0 <= i <= s.len(),
            r@ == s@.take(i as int),
        decreases s.len() - i,
    {
        r.push(s[i]);
        assert(r@ =~= s@.take(i + 1));
        i = i + 1;
    }
    assert(r@ =~= s@);
    r
}

/// Whether two texts are the same.
pub fn same(a: &str, b: &str) -> (r: bool)
    ensures
        r == (a@ == b@),
{
    a.to_owned() == b.to_owned()
}

/// Whether a slice of characters spells the given text.
pub fn spells(s: &[char], t: &str) -> (r: bool)
    ensures
        r == (s@ == t@),
{
    text_of(s) == t.to_owned()
}

/// The contents of a list of strings.
pub open spec fn texts(parts: Seq<String>) -> Seq<Seq<char>> {
    Seq::new(parts.len(), |i: int| parts[i]@)
}

/// Adds a line to a list of lines.
pub fn push_line(lines: &mut Vec<String>, line: String)
    ensures
        texts(final(lines)@) == texts(old(lines)@).push(line@),
{
    lines.push(line);
    assert(texts(lines@) =~= texts(old(lines)@).push(line@));
}

/// A list of no lines.
pub fn no_lines() -> (lines: Vec<String>)
    ensures
        texts(lines@) == Seq::<Seq<char>>::empty(),
{
    let lines: Vec<String> = Vec::new();
    assert(texts(lines@) =~= Seq::<Seq<char>>::empty());
    lines
}

/// The length of a text in bytes, as it is stored.
pub open spec fn byte_len(s: Seq<char>) -> nat {
    (vstd::utf8::encode_utf8(s).len() as usize) as nat
}

/// The length of a text in bytes.
pub fn bytes_in(s: &str) -> (n: usize)
    ensures
        n == byte_len(s@),
{
    s.len()
}

// ---------------------------------------------------------------------------
// Joining.
// ---------------------------------------------------------------------------

/// Parts set side by side with a separator between neighbours.
pub open spec fn joined(parts: Seq<Seq<char>>, sep: Seq<char>) -> Seq<char>
    decreases parts.len(),
{
    if parts.len() == 0 {
        Seq::empty()
    } else if parts.len() == 1 {
        parts[0]
    } else {
        joined(parts.drop_last(), sep) + sep + parts.last()
    }
}

/// Joins strings with a separator.
pub fn join(parts: &Vec<String>, sep: &str) -> (r: String)
    ensures
        r@ == joined(texts(parts@), sep@),
{
    if parts.len() == 0 {
        return String::new();
    }
    let mut r = parts[0].clone();
    let mut i: usize = 1;
    let ghost all = texts(parts@);
    assert(all.take(1).len() == 1 && all.take(1)[0] == parts@[0]@);
    while i < parts.len()
        invariant
            1 <= i <= parts.len(),
            all == texts(parts@),
            r@ == joined(all.take(i as int), sep@),
        decreases parts.len() - i,
    {
        r.push_str(sep);
        r.push_str(parts[i].as_str());
        assert(all.take(i + 1).drop_last() =~= all.take(i as int));
        assert(all.take(i + 1).last() == parts@[i as int]@);
        i = i + 1;
    }
    assert(all.take(i as int) =~= all);
    r
}

// ---------------------------------------------------------------------------
// Prefixes, suffixes and first occurrences.
// ---------------------------------------------------------------------------

/// What follows a prefix, if the text has it.
pub open spec fn after_prefix(s: Seq<char>, p: Seq<char>) -> Option<Seq<char>> {
    if p.len() <= s.len() && s.take(p.len() as int) == p {
        Some(s.skip(p.len() as int))
    } else {
        None
    }
}

/// What precedes a final character, if the text ends in it.
pub open spec fn before_last(s: Seq<char>, c: char) -> Option<Seq<char>> {
    if s.len() > 0 && s.last() == c {
        Some(s.drop_last())
    } else {
        None
    }
}

/// `p` stands in `s` at position `i`.
pub open spec fn stands_at(s: Seq<char>, p: Seq<char>, i: int) -> bool {
    0 <= i && i + p.len() <= s.len() && s.subrange(i, i + p.len()) == p
}

/// The first position from `i` on at which `p` stands in `s`.
pub open spec fn seek(s: Seq<char>, p: Seq<char>, i: int) -> Option<int>
    decreases s.len() - i,
{
    if i < 0 || i + p.len() > s.len() {
        None
    } else if stands_at(s, p, i) {
        Some(i)
    } else if i >= s.len() {
        None
    } else {
        seek(s, p, i + 1)
    }
}

/// The last position up to `i` at which `p` stands in `s`.
pub open spec fn seek_back(s: Seq<char>, p: Seq<char>, i: int) -> Option<int>
    decreases i,
{
    if i < 0 {
        None
    } else if stands_at(s, p, i) {
        Some(i)
    } else if i == 0 {
        None
    } else {
        seek_back(s, p, i - 1)
    }
}

/// The parts before and after the first occurrence of `p`.
pub open spec fn split_once(s: Seq<char>, p: Seq<char>) -> Option<(Seq<char>, Seq<char>)> {
    match seek(s, p, 0) {
        Some(i) => Some((s.take(i), s.skip(i + p.len()))),
        None => None,
    }
}

/// The part after the last occurrence of `p`.
pub open spec fn after_last(s: Seq<char>, p: Seq<char>) -> Option<Seq<char>> {
    match seek_back(s, p, s.len() as int) {
        Some(i) => Some(s.skip(i + p.len())),
        None => None,
    }
}

/// `seek` finds a position exactly where `p` stands there and nowhere earlier.
pub proof fn lemma_seek(s: Seq<char>, p: Seq<char>, i: int, k: int)
    requires
        0 <= i <= k,
        stands_at(s, p, k),
        forall|j: int| i <= j < k ==> !stands_at(s, p, j),
    ensures
        seek(s, p, i) == Some(k),
    decreases k - i,
{
    if i < k {
        assert(!stands_at(s, p, i));
        if i < s.len() {
            lemma_seek(s, p, i + 1, k);
        }
    }
}

/// `seek_back` finds a position exactly where `p` stands there and nowhere later.
pub proof fn lemma_seek_back(s: Seq<char>, p: Seq<char>, i: int, k: int)
    requires
        0 <= k <= i,
        stands_at(s, p, k),
        forall|j: int| k < j <= i ==> !stands_at(s, p, j),
    ensures
        seek_back(s, p, i) == Some(k),
    decreases i - k,
{
    if k < i {
        assert(!stands_at(s, p, i));
        lemma_seek_back(s, p, i - 1, k);
    }
}

/// Splitting a text `a + p + b` at the one-character pattern `p` that `a` does not hold.
pub proof fn lemma_split_at_char(a: Seq<char>, c: char, b: Seq<char>)
    requires
        !a.contains(c),
    ensures
        split_once(a + seq![c] + b, seq![c]) == Some((a, b)),
{
    let s = a + seq![c] + b;
    let p = seq![c];
    let k = a.len() as int;
    assert(s.subrange(k, k + 1) =~= p);
    assert forall|j: int| 0 <= j < k implies !stands_at(s, p, j) by {
        assert(s.subrange(j, j + 1)[0] == a[j]);
        assert(a.contains(a[j]));
    }
    lemma_seek(s, p, 0, k);
    assert(s.take(k) =~= a);
    assert(s.skip(k + 1) =~= b);
}

/// Whether `p` stands in `s` at position `i`.
fn at(s: &[char], p: &[char], i: usize) -> (b: bool)
    requires
        i <= s.len(),
    ensures
        b == stands_at(s@, p@, i as int),
{
    if p.len() > s.len() - i {
        return false;
    }
    let mut k: usize = 0;
    while k < p.len()
        invariant
            0 <= k <= p.len(),
            i + p.len() <= s.len(),
            forall|j: int| 0 <= j < k ==> s@[i + j] == #[trigger] p@[j],
        decreases p.len() - k,
    {
        if s[i + k] != p[k] {
            assert(s@.subrange(i as int, i + p.len())[k as int] != p@[k as int]);
            return false;
        }
        k = k + 1;
    }
    assert(s@.subrange(i as int, i + p.len()) =~= p@);
    true
}

/// Finds the first position of `p` in `s`.
pub fn find(s: &[char], p: &[char]) -> (r: Option<usize>)
    ensures
        match r {
            Some(i) => seek(s@, p@, 0) == Some(i as int) && stands_at(s@, p@, i as int),
            None => seek(s@, p@, 0) is None,
        },
{
    let mut i: usize = 0;
    while p.len() <= s.len() - i
        invariant
            0 <= i <= s.len(),
            seek(s@, p@, 0) == seek(s@, p@, i as int),
        decreases s.len() - i,
    {
        if at(s, p, i) {
            return Some(i);
        }
        if i == s.len() {
            return None;
        }
        i = i + 1;
    }
    None
}

/// Finds the last position of `p` in `s`.
pub fn find_back(s: &[char], p: &[char]) -> (r: Option<usize>)
    ensures
        match r {
            Some(i) => seek_back(s@, p@, s.len() as int) == Some(i as int) && stands_at(
                s@,
                p@,
                i as int,
            ),
            None => seek_back(s@, p@, s.len() as int) is None,
        },
{
    let mut i: usize = s.len();
    while i > 0
        invariant
            0 <= i <= s.len(),
            seek_back(s@, p@, s.len() as int) == seek_back(s@, p@, i as int),
        decreases i,
    {
        if at(s, p, i) {
            return Some(i);
        }
        i = i - 1;
    }
    if at(s, p, 0) {
        Some(0)
    } else {
        None
    }
}

/// Strips a prefix.
pub fn strip_prefix<'a>(s: &'a [char], p: &str) -> (r: Option<&'a [char]>)
    ensures
        match r {
            Some(t) => after_prefix(s@, p@) == Some(t@),
            None => after_prefix(s@, p@) is None,
        },
{
    let pv = chars_of(p);
    if at(s, pv.as_slice(), 0) {
        let t = slice_subrange(s, pv.len(), s.len());
        assert(t@ =~= s@.skip(p@.len() as int));
        assert(s@.take(p@.len() as int) =~= s@.subrange(0, p@.len() as int));
        Some(t)
    } else {
        assert(p@.len() <= s@.len() ==> s@.take(p@.len() as int) =~= s@.subrange(
            0,
            0 + p@.len() as int,
        ));
        None
    }
}

/// Strips one final character.
pub fn strip_last(s: &[char], c: char) -> (r: Option<&[char]>)
    ensures
        match r {
            Some(t) => before_last(s@, c) == Some(t@),
            None => before_last(s@, c) is None,
        },
{
    if s.len() > 0 && s[s.len() - 1] == c {
        let t = slice_subrange(s, 0, s.len() - 1);
        assert(t@ =~= s@.drop_last());
        Some(t)
    } else {
        None
    }
}

/// Splits at the first occurrence of `p`.
pub fn split_first<'a>(s: &'a [char], p: &str) -> (r: Option<(&'a [char], &'a [char])>)
    ensures
        match r {
            Some((a, b)) => split_once(s@, p@) == Some((a@, b@)),
            None => split_once(s@, p@) is None,
        },
{
    let pv = chars_of(p);
    match find(s, pv.as_slice()) {
        Some(i) => {
            let end: usize = s.len();
            assert(i + pv@.len() <= end);
            let a = slice_subrange(s, 0, i);
            let b = slice_subrange(s, i + pv.len(), end);
            assert(a@ =~= s@.take(i as int));
            assert(b@ =~= s@.skip(i + p@.len()));
            Some((a, b))
        },
        None => None,
    }
}

/// What follows the last occurrence of `p`.
pub fn split_last<'a>(s: &'a [char], p: &str) -> (r: Option<&'a [char]>)
    ensures
        match r {
            Some(t) => after_last(s@, p@) == Some(t@),
            None => after_last(s@, p@) is None,
        },
{
    let pv = chars_of(p);
    match find_back(s, pv.as_slice()) {
        Some(i) => {
            let t = slice_subrange(s, i + pv.len(), s.len());
            assert(t@ =~= s@.skip(i + p@.len()));
            Some(t)
        },
        None => None,
    }
}

/// The first position from `i` on that holds white space.
pub open spec fn seek_space(s: Seq<char>, i: int) -> Option<int>
    decreases s.len() - i,
{
    if i < 0 || i >= s.len() {
        None
    } else if is_space(s[i]) {
        Some(i)
    } else {
        seek_space(s, i + 1)
    }
}

/// The parts before and after the first white-space character.
pub open spec fn split_space(s: Seq<char>) -> Option<(Seq<char>, Seq<char>)> {
    match seek_space(s, 0) {
        Some(i) => Some((s.take(i), s.skip(i + 1))),
        None => None,
    }
}

/// Splits at the first white-space character.
pub fn split_first_space(s: &[char]) -> (r: Option<(&[char], &[char])>)
    ensures
        match r {
            Some((a, b)) => split_space(s@) == Some((a@, b@)),
            None => split_space(s@) is None,
        },
{
    let mut i: usize = 0;
    while i < s.len()
        invariant
            0 <= i <= s.len(),
            seek_space(s@, 0) == seek_space(s@, i as int),
        decreases s.len() - i,
    {
        if space(s[i]) {
            let a = slice_subrange(s, 0, i);
            let b = slice_subrange(s, i + 1, s.len());
            assert(a@ =~= s@.take(i as int));
            assert(b@ =~= s@.skip(i + 1));
            return Some((a, b));
        }
        i = i + 1;
    }
    None
}

/// `seek_space` finds the first white-space position.
pub proof fn lemma_seek_space(s: Seq<char>, i: int, k: int)
    requires
        0 <= i <= k < s.len(),
        is_space(s[k]),
        forall|j: int| i <= j < k ==> !is_space(#[trigger] s[j]),
    ensures
        seek_space(s, i) == Some(k),
    decreases k - i,
{
    if i < k {
        assert(!is_space(s[i]));
        lemma_seek_space(s, i + 1, k);
    }
}

// ---------------------------------------------------------------------------
// Words: maximal runs of characters that are no separators.
// ---------------------------------------------------------------------------

/// What separates words.
#[derive(Clone, Copy, PartialEq, Eq, Structural, Debug)]
pub enum Separator {
    /// White space.
    Space,
    /// Everything that is not alphanumeric.
    NonAlphanumeric,
}

impl Separator {
    /// The character separates words.
    pub open spec fn separates(self, c: char) -> bool {
        match self {
            Separator::Space => is_space(c),
            Separator::NonAlphanumeric => !alphanumeric(c),
        }
    }

    /// Whether the character separates words.
    pub fn hits(self, c: char) -> (b: bool)
        ensures
            b == self.separates(c),
    {
        match self {
            Separator::Space => space(c),
            Separator::NonAlphanumeric => !c.is_alphanumeric(),
        }
    }
}

/// Words finished so far, and the one being read, after reading `s`.
pub open spec fn reading(s: Seq<char>, sep: Separator) -> (Seq<Seq<char>>, Seq<char>)
    decreases s.len(),
{
    if s.len() == 0 {
        (Seq::empty(), Seq::empty())
    } else {
        let (done, cur) = reading(s.drop_last(), sep);
        if !sep.separates(s.last()) {
            (done, cur.push(s.last()))
        } else if cur.len() > 0 {
            (done.push(cur), Seq::empty())
        } else {
            (done, cur)
        }
    }
}

/// The words of a text, in order.
pub open spec fn words(s: Seq<char>, sep: Separator) -> Seq<Seq<char>> {
    let (done, cur) = reading(s, sep);
    if cur.len() > 0 {
        done.push(cur)
    } else {
        done
    }
}

/// Splits a text into its words.
pub fn split_words(s: &[char], sep: Separator) -> (r: Vec<String>)
    ensures
        texts(r@) == words(s@, sep),
{
    let mut done: Vec<String> = Vec::new();
    let mut cur = String::new();
    let mut i: usize = 0;
    assert(s@.take(0) =~= Seq::<char>::empty());
    assert(texts(done@) =~= Seq::<Seq<char>>::empty());
    while i < s.len()
        invariant
            0 <= i <= s.len(),
            texts(done@) == reading(s@.take(i as int), sep).0,
            cur@ == reading(s@.take(i as int), sep).1,
        decreases s.len() - i,
    {
        let c: char = s[i];
        assert(s@.take(i + 1).drop_last() =~= s@.take(i as int));
        assert(s@.take(i + 1).last() == c);
        if !sep.hits(c) {
            cur.push(c);
        } else if !cur.as_str().is_empty() {
            let ghost before = done@;
            done.push(cur);
            assert(texts(done@) =~= texts(before).push(cur@));
            cur = String::new();
        }
        i = i + 1;
    }
    assert(s@.take(i as int) =~= s@);
    if !cur.as_str().is_empty() {
        let ghost before = done@;
        done.push(cur);
        assert(texts(done@) =~= texts(before).push(cur@));
    }
    done
}

// ---------------------------------------------------------------------------
// Lines.
// ---------------------------------------------------------------------------

/// A line without one final carriage return.
pub open spec fn chomp(s: Seq<char>) -> Seq<char> {
    if s.len() > 0 && s.last() == '\r' {
        s.drop_last()
    } else {
        s
    }
}

/// Lines finished so far, and the characters after the last line feed, after reading `s`.
pub open spec fn line_reading(s: Seq<char>) -> (Seq<Seq<char>>, Seq<char>)
    decreases s.len(),
{
    if s.len() == 0 {
        (Seq::empty(), Seq::empty())
    } else {
        let (done, cur) = line_reading(s.drop_last());
        if s.last() == '\n' {
            (done.push(chomp(cur)), Seq::empty())
        } else {
            (done, cur.push(s.last()))
        }
    }
}

/// The lines of a text. A line ends in a line feed, before which one carriage return is dropped;
/// the last line may lack the line feed.
pub open spec fn lines(s: Seq<char>) -> Seq<Seq<char>> {
    let (done, cur) = line_reading(s);
    if cur.len() > 0 {
        done.push(cur)
    } else {
        done
    }
}

/// Splits a text into its lines.
pub fn split_lines(s: &str) -> (r: Vec<String>)
    ensures
        texts(r@) == lines(s@),
{
    let v = chars_of(s);
    let mut done: Vec<String> = Vec::new();
    let mut cur: Vec<char> = Vec::new();
    let mut i: usize = 0;
    assert(v@.take(0) =~= Seq::<char>::empty());
    assert(texts(done@) =~= Seq::<Seq<char>>::empty());
    while i < v.len()
        invariant
            0 <= i <= v.len(),
            texts(done@) == line_reading(v@.take(i as int)).0,
            cur@ == line_reading(v@.take(i as int)).1,
        decreases v.len() - i,
    {
        let c: char = v[i];
        assert(v@.take(i + 1).drop_last() =~= v@.take(i as int));
        assert(v@.take(i + 1).last() == c);
        if c == '\n' {
            let ghost before = done@;
            let line = match strip_last(cur.as_slice(), '\r') {
                Some(t) => text_of(t),
                None => text_of(cur.as_slice()),
            };
            assert(line@ == chomp(cur@));
            done.push(line);
            assert(texts(done@) =~= texts(before).push(chomp(cur@)));
            cur = Vec::new();
        } else {
            cur.push(c);
        }
        i = i + 1;
    }
    assert(v@.take(i as int) =~= v@);
    if cur.len() > 0 {
        let ghost before = done@;
        done.push(text_of(cur.as_slice()));
        assert(texts(done@) =~= texts(before).push(cur@));
    }
    done
}

/// Texts in the order of their characters.
pub open spec fn text_less(a: Seq<char>, b: Seq<char>) -> bool
    decreases a.len(),
{
    if b.len() == 0 {
        false
    } else if a.len() == 0 {
        true
    } else if a[0] != b[0] {
        (a[0] as u32) < (b[0] as u32)
    } else {
        text_less(a.skip(1), b.skip(1))
    }
}

/// Whether a text comes before another.
pub fn precedes(a: &[char], b: &[char]) -> (r: bool)
    ensures
        r == text_less(a@, b@),
    decreases a.len(),
{
    if b.len() == 0 {
        false
    } else if a.len() == 0 {
        true
    } else if a[0] != b[0] {
        (a[0] as u32) < (b[0] as u32)
    } else {
        let end_a: usize = a.len();
        let end_b: usize = b.len();
        let ra = vstd::slice::slice_subrange(a, 1, end_a);
        let rb = vstd::slice::slice_subrange(b, 1, end_b);
        assert(ra@ =~= a@.skip(1));
        assert(rb@ =~= b@.skip(1));
        precedes(ra, rb)
    }
}

/// No text comes before itself.
pub proof fn lemma_less_irreflexive(a: Seq<char>)
    ensures
        !text_less(a, a),
    decreases a.len(),
{
    if a.len() > 0 {
        lemma_less_irreflexive(a.skip(1));
    }
}

/// What comes before a text comes before all that the text comes before.
pub proof fn lemma_less_transitive(a: Seq<char>, b: Seq<char>, c: Seq<char>)
    ensures
        text_less(a, b) && text_less(b, c) ==> text_less(a, c),
    decreases a.len(),
{
    if a.len() > 0 && b.len() > 0 && c.len() > 0 {
        lemma_less_transitive(a.skip(1), b.skip(1), c.skip(1));
    }
}

} // verus!
