//! How texts are cut: at separators, at line ends, at a pattern and at their blank ends; and what
//! the words of a text count for.
use crate::hash::fnv;
use crate::knowledge::{bucket_counts, features};
use crate::text::{
    after_last, after_prefix, before_last, chomp, is_space, line_reading, lines, lowercase, reading,
    seek, seek_back, seek_space, split_once, split_space, stands_at, text_less, trim, trim_end,
    trim_start, words, Separator,
};
use vstd::prelude::*;

verus! {

// ---------------------------------------------------------------------------
// Words.
// ---------------------------------------------------------------------------

/// Whether a text has no separator.
pub open spec fn unparted(s: Seq<char>, sep: Separator) -> bool {
    forall|i: int| 0 <= i < s.len() ==> !sep.separates(#[trigger] s[i])
}

proof fn lemma_one_word(s: Seq<char>, sep: Separator)
    requires
        unparted(s, sep),
    ensures
        reading(s, sep) == (Seq::<Seq<char>>::empty(), s),
    decreases s.len(),
{
    if s.len() > 0 {
        let front = s.drop_last();
        assert forall|i: int| 0 <= i < front.len() implies !sep.separates(#[trigger] front[i]) by {
            assert(front[i] == s[i]);
        }
        lemma_one_word(front, sep);
        assert(!sep.separates(s[s.len() - 1]));
        assert(front.push(s.last()) =~= s);
    } else {
        assert(s =~= Seq::empty());
    }
}

/// A text without separators is one word; an empty text has none.
pub proof fn unparted_texts_are_words(s: Seq<char>, sep: Separator)
    requires
        unparted(s, sep),
    ensures
        s.len() > 0 ==> words(s, sep) == seq![s],
        s.len() == 0 ==> words(s, sep).len() == 0,
{
    lemma_one_word(s, sep);
    assert(Seq::<Seq<char>>::empty().push(s) =~= seq![s]);
}

proof fn lemma_reading_on(a: Seq<char>, c: char, b: Seq<char>, sep: Separator)
    requires
        sep.separates(c),
    ensures
        reading(a.push(c) + b, sep).0 == words(a, sep) + reading(b, sep).0,
        reading(a.push(c) + b, sep).1 == reading(b, sep).1,
    decreases b.len(),
{
    let whole = a.push(c) + b;
    if b.len() == 0 {
        assert(whole =~= a.push(c));
        assert(a.push(c).drop_last() =~= a);
        assert(reading(a.push(c), sep).0 =~= words(a, sep) + reading(b, sep).0);
    } else {
        lemma_reading_on(a, c, b.drop_last(), sep);
        assert(whole.drop_last() =~= a.push(c) + b.drop_last());
        assert(whole.last() == b.last());
        let (done, cur) = reading(b.drop_last(), sep);
        assert((words(a, sep) + done).push(cur) =~= words(a, sep) + done.push(cur));
    }
}

/// A separator parts the words before it from those behind it, and is in none of them.
pub proof fn separators_part_words(a: Seq<char>, c: char, b: Seq<char>, sep: Separator)
    requires
        sep.separates(c),
    ensures
        words(a.push(c) + b, sep) == words(a, sep) + words(b, sep),
{
    lemma_reading_on(a, c, b, sep);
    let (done, cur) = reading(b, sep);
    assert((words(a, sep) + done).push(cur) =~= words(a, sep) + done.push(cur));
}

// ---------------------------------------------------------------------------
// What words count for.
// ---------------------------------------------------------------------------

proof fn lemma_counts_len(list: Seq<Seq<char>>, dims: nat)
    requires
        dims > 0,
    ensures
        bucket_counts(list, dims).len() == dims,
    decreases list.len(),
{
    if list.len() > 0 {
        lemma_counts_len(list.drop_last(), dims);
        let h = fnv(vstd::utf8::encode_utf8(list.last()));
        assert(0 <= h as int % dims as int);
    }
}

/// What texts count for adds up: the order of their words is of no account.
pub proof fn counts_add_up(a: Seq<Seq<char>>, b: Seq<Seq<char>>, dims: nat, i: int)
    requires
        0 <= i < dims,
    ensures
        bucket_counts(a + b, dims)[i] == bucket_counts(a, dims)[i] + bucket_counts(b, dims)[i],
        bucket_counts(b + a, dims)[i] == bucket_counts(a + b, dims)[i],
    decreases a.len() + b.len(),
{
    lemma_counts_sum(a, b, dims, i);
    lemma_counts_sum(b, a, dims, i);
}

proof fn lemma_counts_sum(a: Seq<Seq<char>>, b: Seq<Seq<char>>, dims: nat, i: int)
    requires
        0 <= i < dims,
    ensures
        bucket_counts(a + b, dims)[i] == bucket_counts(a, dims)[i] + bucket_counts(b, dims)[i],
    decreases b.len(),
{
    if b.len() == 0 {
        assert(a + b =~= a);
    } else {
        let front = b.drop_last();
        lemma_counts_sum(a, front, dims, i);
        assert((a + b).drop_last() =~= a + front);
        assert((a + b).last() == b.last());
        lemma_counts_len(a + front, dims);
        lemma_counts_len(front, dims);
        let h = fnv(vstd::utf8::encode_utf8(b.last()));
        let at = h as int % dims as int;
        assert(0 <= at < dims);
        if i == at {
        } else {
            assert(bucket_counts(a + b, dims)[i] == bucket_counts(a + front, dims)[i]);
            assert(bucket_counts(b, dims)[i] == bucket_counts(front, dims)[i]);
        }
    }
}

/// A word counts in one place, that of its hash, and there for one: against it where the hash has
/// its highest bit, and for it where it has not.
pub proof fn words_count_in_one_place(word: Seq<char>, dims: nat, i: int)
    requires
        0 <= i < dims,
    ensures
        ({
            let h = fnv(vstd::utf8::encode_utf8(word));
            let counts = bucket_counts(seq![word], dims);
            &&& counts.len() == dims
            &&& counts[i] != 0 <==> h as int % dims as int == i
            &&& counts[i] == 1 || counts[i] == 0 || counts[i] == -1
            &&& counts[i] == -1 ==> h >= 0x8000_0000_0000_0000
            &&& counts[i] == 1 ==> h < 0x8000_0000_0000_0000
        }),
{
    let list = seq![word];
    assert(list.drop_last() =~= Seq::empty());
    assert(list.last() == word);
    lemma_counts_len(list.drop_last(), dims);
    let h = fnv(vstd::utf8::encode_utf8(word));
    assert(0 <= h as int % dims as int);
}

/// A text counts for its words and for nothing else: small and capital letters are one, and so are
/// two texts whose words are the same.
pub proof fn texts_count_for_their_words(a: Seq<char>, b: Seq<char>, dims: nat)
    requires
        dims > 0,
        words(lowercase(a), Separator::NonAlphanumeric) == words(
            lowercase(b),
            Separator::NonAlphanumeric,
        ),
    ensures
        features(a, dims) == features(b, dims),
        features(a, dims).len() == dims,
        words(lowercase(a), Separator::NonAlphanumeric).len() == 0 ==> forall|i: int|
            0 <= i < dims ==> #[trigger] features(a, dims)[i] == 0,
        words(lowercase(a), Separator::NonAlphanumeric).len() == 1 ==> features(a, dims)
            == bucket_counts(seq![words(lowercase(a), Separator::NonAlphanumeric)[0]], dims),
{
    let list = words(lowercase(a), Separator::NonAlphanumeric);
    lemma_counts_len(list, dims);
    if list.len() == 1 {
        assert(list =~= seq![list[0]]);
    }
}

// ---------------------------------------------------------------------------
// Lines.
// ---------------------------------------------------------------------------

/// Whether a text has no line end.
pub open spec fn unbroken(s: Seq<char>) -> bool {
    forall|i: int| 0 <= i < s.len() ==> #[trigger] s[i] != '\n'
}

proof fn lemma_one_line(s: Seq<char>)
    requires
        unbroken(s),
    ensures
        line_reading(s) == (Seq::<Seq<char>>::empty(), s),
    decreases s.len(),
{
    if s.len() > 0 {
        let front = s.drop_last();
        assert forall|i: int| 0 <= i < front.len() implies #[trigger] front[i] != '\n' by {
            assert(front[i] == s[i]);
        }
        lemma_one_line(front);
        assert(s[s.len() - 1] != '\n');
        assert(front.push(s.last()) =~= s);
    } else {
        assert(s =~= Seq::empty());
    }
}

proof fn lemma_line_on(a: Seq<char>, b: Seq<char>)
    requires
        unbroken(a),
    ensures
        line_reading(a.push('\n') + b).0 == seq![chomp(a)] + line_reading(b).0,
        line_reading(a.push('\n') + b).1 == line_reading(b).1,
    decreases b.len(),
{
    let whole = a.push('\n') + b;
    if b.len() == 0 {
        assert(whole =~= a.push('\n'));
        assert(a.push('\n').drop_last() =~= a);
        lemma_one_line(a);
        assert(line_reading(whole).0 =~= seq![chomp(a)] + line_reading(b).0);
    } else {
        lemma_line_on(a, b.drop_last());
        assert(whole.drop_last() =~= a.push('\n') + b.drop_last());
        assert(whole.last() == b.last());
        let (done, cur) = line_reading(b.drop_last());
        assert((seq![chomp(a)] + done).push(chomp(cur)) =~= seq![chomp(a)] + done.push(chomp(cur)));
    }
}

/// A line ends at the first line end, with a return before it left out, and the lines behind it
/// follow; the last line needs no end, and an empty one there does not count.
pub proof fn lines_end_at_line_ends(a: Seq<char>, b: Seq<char>)
    requires
        unbroken(a),
    ensures
        a.len() > 0 ==> lines(a) == seq![a],
        a.len() == 0 ==> lines(a).len() == 0,
        (a.len() == 0 || a.last() != '\r') ==> lines(a.push('\n') + b) == seq![a] + lines(b),
        lines(a.push('\r').push('\n') + b) == seq![a] + lines(b),
{
    lemma_one_line(a);
    assert(Seq::<Seq<char>>::empty().push(a) =~= seq![a]);
    lemma_line_on(a, b);
    let (done, cur) = line_reading(b);
    assert((seq![a] + done).push(cur) =~= seq![a] + done.push(cur));
    let back = a.push('\r');
    assert(unbroken(back)) by {
        assert forall|i: int| 0 <= i < back.len() implies #[trigger] back[i] != '\n' by {
            if i < a.len() {
                assert(back[i] == a[i]);
            }
        }
    }
    lemma_line_on(back, b);
    assert(back.drop_last() =~= a);
    assert(chomp(back) == a);
}

// ---------------------------------------------------------------------------
// Patterns and ends.
// ---------------------------------------------------------------------------

proof fn lemma_first_place(s: Seq<char>, p: Seq<char>, i: int)
    requires
        0 <= i,
    ensures
        match seek(s, p, i) {
            Some(k) => {
                &&& i <= k
                &&& stands_at(s, p, k)
                &&& forall|j: int| i <= j < k ==> !#[trigger] stands_at(s, p, j)
            },
            None => forall|j: int| i <= j ==> !#[trigger] stands_at(s, p, j),
        },
    decreases s.len() - i,
{
    if i + p.len() <= s.len() && !stands_at(s, p, i) && i < s.len() {
        lemma_first_place(s, p, i + 1);
        match seek(s, p, i) {
            Some(k) => {
                assert forall|j: int| i <= j < k implies !#[trigger] stands_at(s, p, j) by {
                    if j > i {
                        assert(i + 1 <= j);
                    }
                }
            },
            None => {
                assert forall|j: int| i <= j implies !#[trigger] stands_at(s, p, j) by {
                    if j > i {
                        assert(i + 1 <= j);
                    }
                }
            },
        }
    } else if i + p.len() <= s.len() && !stands_at(s, p, i) {
        assert(i == s.len());
    }
}

proof fn lemma_last_place(s: Seq<char>, p: Seq<char>, i: int)
    ensures
        match seek_back(s, p, i) {
            Some(k) => {
                &&& k <= i
                &&& stands_at(s, p, k)
                &&& forall|j: int| k < j <= i ==> !#[trigger] stands_at(s, p, j)
            },
            None => forall|j: int| j <= i ==> !#[trigger] stands_at(s, p, j),
        },
    decreases i,
{
    if i > 0 && !stands_at(s, p, i) {
        lemma_last_place(s, p, i - 1);
    }
}

/// A text is cut at the first place of a pattern, or not at all where the pattern is nowhere in it;
/// nothing but the pattern is lost.
pub proof fn texts_are_cut_at_the_first_pattern(s: Seq<char>, p: Seq<char>)
    ensures
        match split_once(s, p) {
            Some((a, b)) => {
                &&& s == a + p + b
                &&& forall|j: int| 0 <= j < a.len() ==> !#[trigger] stands_at(s, p, j)
            },
            None => forall|j: int| !#[trigger] stands_at(s, p, j),
        },
{
    lemma_first_place(s, p, 0);
    if let Some(k) = seek(s, p, 0) {
        assert(s =~= s.take(k) + s.subrange(k, k + p.len()) + s.skip(k + p.len()));
    }
}

/// What stands behind the last place of a pattern is the end of the text, and the pattern does not
/// come again in it.
pub proof fn ends_stand_behind_the_last_pattern(s: Seq<char>, p: Seq<char>)
    ensures
        match after_last(s, p) {
            Some(b) => {
                &&& stands_at(s, p, s.len() - b.len() - p.len())
                &&& b == s.skip(s.len() - b.len())
                &&& forall|j: int|
                    s.len() - b.len() - p.len() < j <= s.len() ==> !#[trigger] stands_at(s, p, j)
            },
            None => forall|j: int| !#[trigger] stands_at(s, p, j),
        },
{
    lemma_last_place(s, p, s.len() as int);
    if let Some(k) = seek_back(s, p, s.len() as int) {
        assert(s.skip(k + p.len()).len() == s.len() - k - p.len());
    } else {
        assert forall|j: int| !#[trigger] stands_at(s, p, j) by {
            if j > s.len() {
            }
        }
    }
}

/// A prefix is taken off a text that starts with it, and off no other; so is a last character.
pub proof fn prefixes_are_taken_off(s: Seq<char>, p: Seq<char>, c: char)
    ensures
        after_prefix(p + s, p) == Some(s),
        match after_prefix(s, p) {
            Some(b) => s == p + b,
            None => !p.is_prefix_of(s),
        },
        before_last(s.push(c), c) == Some(s),
        match before_last(s, c) {
            Some(a) => s == a.push(c),
            None => s.len() == 0 || s.last() != c,
        },
{
    assert((p + s).take(p.len() as int) =~= p);
    assert((p + s).skip(p.len() as int) =~= s);
    if let Some(b) = after_prefix(s, p) {
        assert(s =~= s.take(p.len() as int) + b);
    } else if p.is_prefix_of(s) {
        assert(s.take(p.len() as int) =~= p);
    }
    assert(s.push(c).drop_last() =~= s);
    if let Some(a) = before_last(s, c) {
        assert(s =~= a.push(c));
    }
}

proof fn lemma_first_space(s: Seq<char>, i: int)
    requires
        0 <= i,
    ensures
        match seek_space(s, i) {
            Some(k) => i <= k < s.len() && is_space(s[k]) && forall|j: int|
                i <= j < k ==> !is_space(#[trigger] s[j]),
            None => forall|j: int| i <= j < s.len() ==> !is_space(#[trigger] s[j]),
        },
    decreases s.len() - i,
{
    if i < s.len() && !is_space(s[i]) {
        lemma_first_space(s, i + 1);
    }
}

/// A text is cut at its first space, or not at all where it has none; only that space is lost.
pub proof fn texts_are_cut_at_the_first_space(s: Seq<char>)
    ensures
        match split_space(s) {
            Some((a, b)) => {
                &&& a.len() + 1 + b.len() == s.len()
                &&& a.is_prefix_of(s)
                &&& b.is_suffix_of(s)
                &&& is_space(s[a.len() as int])
                &&& forall|j: int| 0 <= j < a.len() ==> !is_space(#[trigger] a[j])
            },
            None => forall|j: int| 0 <= j < s.len() ==> !is_space(#[trigger] s[j]),
        },
{
    lemma_first_space(s, 0);
    if let Some(k) = seek_space(s, 0) {
        let a = s.take(k);
        assert forall|j: int| 0 <= j < a.len() implies !is_space(#[trigger] a[j]) by {
            assert(a[j] == s[j]);
        }
    }
}

/// Whether every character of a text is blank.
pub open spec fn blank(s: Seq<char>) -> bool {
    forall|i: int| 0 <= i < s.len() ==> is_space(#[trigger] s[i])
}

proof fn lemma_start_trimmed(s: Seq<char>)
    ensures
        trim_start(s).len() <= s.len(),
        s == s.take(s.len() - trim_start(s).len()) + trim_start(s),
        blank(s.take(s.len() - trim_start(s).len())),
        trim_start(s).len() > 0 ==> !is_space(trim_start(s)[0]),
    decreases s.len(),
{
    if s.len() > 0 && is_space(s[0]) {
        let rest = s.skip(1);
        lemma_start_trimmed(rest);
        let n = s.len() - trim_start(s).len();
        assert(s =~= s.take(n) + trim_start(s)) by {
            assert(rest =~= rest.take(n - 1) + trim_start(rest));
            assert forall|i: int| 0 <= i < trim_start(s).len() implies trim_start(s)[i] == s[n + i] by {
                assert(rest[n - 1 + i] == (rest.take(n - 1) + trim_start(rest))[n - 1 + i]);
            }
        }
        let cut = s.take(n);
        assert forall|i: int| 0 <= i < cut.len() implies is_space(#[trigger] cut[i]) by {
            if i > 0 {
                assert(rest.take(n - 1)[i - 1] == cut[i]);
            }
        }
    } else {
        assert(s.take(0) =~= Seq::empty());
        assert(s =~= s.take(0) + s);
    }
}

proof fn lemma_end_trimmed(s: Seq<char>)
    ensures
        trim_end(s).len() <= s.len(),
        s == trim_end(s) + s.skip(trim_end(s).len() as int),
        blank(s.skip(trim_end(s).len() as int)),
        trim_end(s).len() > 0 ==> !is_space(trim_end(s).last()),
        trim_end(s).len() > 0 ==> trim_end(s)[0] == s[0],
    decreases s.len(),
{
    if s.len() > 0 && is_space(s.last()) {
        let rest = s.drop_last();
        lemma_end_trimmed(rest);
        let n = trim_end(s).len() as int;
        assert(s =~= trim_end(s) + s.skip(n)) by {
            assert forall|i: int| 0 <= i < n implies trim_end(s)[i] == s[i] by {
                assert(rest[i] == (trim_end(rest) + rest.skip(n))[i]);
            }
        }
        let cut = s.skip(n);
        assert forall|i: int| 0 <= i < cut.len() implies is_space(#[trigger] cut[i]) by {
            if i < cut.len() - 1 {
                assert(rest.skip(n)[i] == cut[i]);
            }
        }
    } else {
        assert(s.skip(s.len() as int) =~= Seq::empty());
        assert(s =~= s + s.skip(s.len() as int));
    }
}

/// What is left of a trimmed text stands in it between blanks, and neither starts nor ends with
/// one.
pub proof fn only_blanks_are_trimmed(s: Seq<char>)
    ensures
        exists|a: Seq<char>, b: Seq<char>|
            #![trigger blank(a), blank(b)]
            blank(a) && blank(b) && s == a + trim(s) + b,
        trim(s).len() > 0 ==> !is_space(trim(s)[0]) && !is_space(trim(s).last()),
{
    lemma_start_trimmed(s);
    let mid = trim_start(s);
    lemma_end_trimmed(mid);
    let a = s.take(s.len() - mid.len());
    let b = mid.skip(trim(s).len() as int);
    assert(blank(a) && blank(b));
    assert(s =~= a + trim(s) + b);
}

proof fn lemma_numbers_differ(x: char, y: char)
    requires
        x != y,
    ensures
        x as u32 != y as u32,
{
    assert(x as u32 as int == x as int);
    assert(y as u32 as int == y as int);
}

/// Texts are ordered as by their characters' numbers: of two texts one comes before the other
/// unless they are the same, a text comes before what goes on from it, and the first difference
/// decides.
pub proof fn texts_have_one_order(a: Seq<char>, b: Seq<char>, c: char, d: char)
    ensures
        !text_less(a, a),
        a != b ==> (text_less(a, b) <==> !text_less(b, a)),
        b.len() > 0 ==> text_less(a, a + b),
        (c as u32) < (d as u32) ==> text_less(a.push(c) + b, a.push(d)),
        (c as u32) < (d as u32) ==> text_less(a.push(c), a.push(d) + b),
    decreases a.len(),
{
    if a.len() > 0 {
        let rest = a.skip(1);
        if b.len() > 0 && a[0] == b[0] {
            texts_have_one_order(rest, b.skip(1), c, d);
            if rest == b.skip(1) {
                assert(a =~= seq![a[0]] + rest);
                assert(b =~= seq![b[0]] + b.skip(1));
            }
        } else if b.len() > 0 {
            lemma_numbers_differ(a[0], b[0]);
        }
        texts_have_one_order(rest, b, c, d);
        assert((a + b).skip(1) =~= rest + b);
        assert((a.push(c) + b).skip(1) =~= rest.push(c) + b);
        assert(a.push(d).skip(1) =~= rest.push(d));
        assert(a.push(c).skip(1) =~= rest.push(c));
        assert((a.push(d) + b).skip(1) =~= rest.push(d) + b);
    } else {
        assert(a =~= Seq::empty());
        assert(a.push(c)[0] == c && a.push(d)[0] == d);
        assert((a.push(c) + b)[0] == c);
        assert((a.push(d) + b)[0] == d);
        if b.len() == 0 {
            assert(a =~= b);
        }
    }
}

} // verus!
