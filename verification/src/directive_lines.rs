//! What a directive line shows of its arguments reads back.
use crate::directive::{
    args_text, bare, bare_char, canonical_pairs, extra_pairs, value_fields, value_items, value_text,
    DirectiveView,
};
use crate::json::{key_at, lemma_key_at, JsonView};
use crate::legible::{lemma_prefix, lemma_split, lemma_whole};
use crate::mock::parse::{
    closing, comma, directive_of, numbered_tier, pair_of, pairs_of, proposal, unquoted,
    ShownDirective,
};
use crate::text::{
    dec, is_digit, is_space, joined, split_once, trim, trim_start,
};
use vstd::prelude::*;

verus! {

// ---------------------------------------------------------------------------
// Passing over text.
// ---------------------------------------------------------------------------

/// A character by which arguments are taken apart.
pub open spec fn marks(c: char) -> bool {
    c == '"' || c == '{' || c == '[' || c == '}' || c == ']'
}

/// A text with none of the characters by which arguments are taken apart.
pub open spec fn unmarked(t: Seq<char>) -> bool {
    forall|i: int| 0 <= i < t.len() ==> !marks(#[trigger] t[i])
}

/// From `i` to `j` nothing ends: no bracket that was open is closed, and no comma separates at a
/// depth of at least `lo`.
pub open spec fn passes(s: Seq<char>, i: int, j: int, lo: nat) -> bool {
    &&& 0 <= i <= j <= s.len()
    &&& forall|depth: nat|
        depth >= lo ==> #[trigger] comma(s, i, depth, false) == comma(s, j, depth, false)
    &&& forall|depth: nat|
        depth >= 1 ==> #[trigger] closing(s, i, depth, false) == closing(s, j, depth, false)
}

/// A text stands in another at a position.
pub open spec fn holds(s: Seq<char>, i: int, t: Seq<char>) -> bool {
    &&& 0 <= i
    &&& i + t.len() <= s.len()
    &&& forall|k: int| 0 <= k < t.len() ==> s[i + k] == #[trigger] t[k]
}

proof fn lemma_holds_parts(s: Seq<char>, i: int, a: Seq<char>, b: Seq<char>)
    requires
        holds(s, i, a + b),
    ensures
        holds(s, i, a),
        holds(s, i + a.len(), b),
{
    assert forall|k: int| 0 <= k < a.len() implies s[i + k] == #[trigger] a[k] by {
        assert((a + b)[k] == a[k]);
    }
    assert forall|k: int| 0 <= k < b.len() implies s[i + a.len() + k] == #[trigger] b[k] by {
        assert((a + b)[a.len() + k] == b[k]);
    }
}

/// Text without marks is passed over, but for commas outside brackets.
proof fn lemma_plain_passes(s: Seq<char>, i: int, j: int, lo: nat)
    requires
        0 <= i <= j <= s.len(),
        forall|k: int| i <= k < j ==> !marks(#[trigger] s[k]) && (lo == 0 ==> s[k] != ','),
    ensures
        passes(s, i, j, lo),
    decreases j - i,
{
    if i < j {
        lemma_plain_passes(s, i + 1, j, lo);
        assert(!marks(s[i]));
        assert forall|depth: nat| depth >= lo implies #[trigger] comma(s, i, depth, false) == comma(
            s,
            j,
            depth,
            false,
        ) by {
            assert(comma(s, i, depth, false) == comma(s, i + 1, depth, false));
        }
        assert forall|depth: nat| depth >= 1 implies #[trigger] closing(s, i, depth, false)
            == closing(s, j, depth, false) by {
            assert(closing(s, i, depth, false) == closing(s, i + 1, depth, false));
        }
    }
}

/// Between double quotes everything is passed over.
proof fn lemma_inside_quotes(s: Seq<char>, i: int, j: int, depth: nat)
    requires
        0 <= i <= j < s.len(),
        s[j] == '"',
        forall|k: int| i <= k < j ==> #[trigger] s[k] != '"',
    ensures
        comma(s, i, depth, true) == comma(s, j + 1, depth, false),
        closing(s, i, depth, true) == closing(s, j + 1, depth, false),
    decreases j - i,
{
    if i < j {
        assert(s[i] != '"');
        lemma_inside_quotes(s, i + 1, j, depth);
    }
}

proof fn lemma_quoted_passes(s: Seq<char>, i: int, j: int)
    requires
        0 <= i < j < s.len(),
        s[i] == '"',
        s[j] == '"',
        forall|k: int| i < k < j ==> #[trigger] s[k] != '"',
    ensures
        passes(s, i, j + 1, 0),
{
    assert forall|depth: nat| depth >= 0 implies #[trigger] comma(s, i, depth, false) == comma(
        s,
        j + 1,
        depth,
        false,
    ) by {
        lemma_inside_quotes(s, i + 1, j, depth);
    }
    assert forall|depth: nat| depth >= 1 implies #[trigger] closing(s, i, depth, false) == closing(
        s,
        j + 1,
        depth,
        false,
    ) by {
        lemma_inside_quotes(s, i + 1, j, depth);
    }
}

proof fn lemma_bracket_passes(s: Seq<char>, i: int, j: int)
    requires
        0 <= i < j < s.len(),
        s[i] == '{' || s[i] == '[',
        s[j] == '}' || s[j] == ']',
        passes(s, i + 1, j, 1),
    ensures
        passes(s, i, j + 1, 0),
{
    assert forall|depth: nat| depth >= 0 implies #[trigger] comma(s, i, depth, false) == comma(
        s,
        j + 1,
        depth,
        false,
    ) by {
        assert(comma(s, i, depth, false) == comma(s, i + 1, depth + 1, false));
        assert(comma(s, i + 1, depth + 1, false) == comma(s, j, depth + 1, false));
        assert(comma(s, j, depth + 1, false) == comma(s, j + 1, depth, false));
    }
    assert forall|depth: nat| depth >= 1 implies #[trigger] closing(s, i, depth, false) == closing(
        s,
        j + 1,
        depth,
        false,
    ) by {
        assert(closing(s, i, depth, false) == closing(s, i + 1, depth + 1, false));
        assert(closing(s, i + 1, depth + 1, false) == closing(s, j, depth + 1, false));
        assert(closing(s, j, depth + 1, false) == closing(s, j + 1, depth, false));
    }
}

proof fn lemma_passes_on(s: Seq<char>, i: int, j: int, k: int, lo: nat)
    requires
        passes(s, i, j, lo),
        passes(s, j, k, lo),
    ensures
        passes(s, i, k, lo),
{
    assert forall|depth: nat| depth >= lo implies #[trigger] comma(s, i, depth, false) == comma(
        s,
        k,
        depth,
        false,
    ) by {
        assert(comma(s, j, depth, false) == comma(s, k, depth, false));
    }
    assert forall|depth: nat| depth >= 1 implies #[trigger] closing(s, i, depth, false) == closing(
        s,
        k,
        depth,
        false,
    ) by {
        assert(closing(s, j, depth, false) == closing(s, k, depth, false));
    }
}

// ---------------------------------------------------------------------------
// Values.
// ---------------------------------------------------------------------------

/// A value whose line can be taken apart again: no text in it holds a double quote, and no number or
/// key holds a mark.
pub open spec fn readable(v: JsonView) -> bool
    decreases v,
{
    match v {
        JsonView::Null => true,
        JsonView::Bool(_) => true,
        JsonView::Number { text, .. } => {
            &&& text.len() > 0
            &&& forall|i: int|
                0 <= i < text.len() ==> !marks(#[trigger] text[i]) && text[i] != ',' && !is_space(
                    text[i],
                )
        },
        JsonView::Text(s) => forall|i: int| 0 <= i < s.len() ==> #[trigger] s[i] != '"',
        JsonView::Array(items) => readable_items(items),
        JsonView::Object(fields) => readable_fields(fields),
    }
}

/// The items of a list can be taken apart again.
pub open spec fn readable_items(items: Seq<JsonView>) -> bool
    decreases items,
{
    items.len() == 0 || (readable_items(items.drop_last()) && readable(items.last()))
}

/// The fields of an object can be taken apart again.
pub open spec fn readable_fields(fields: Seq<(Seq<char>, JsonView)>) -> bool
    decreases fields,
{
    fields.len() == 0 || (readable_fields(fields.drop_last()) && unmarked(fields.last().0)
        && readable(fields.last().1))
}

proof fn lemma_value_passes(s: Seq<char>, i: int, v: JsonView)
    requires
        readable(v),
        holds(s, i, value_text(v)),
    ensures
        passes(s, i, i + value_text(v).len(), 0),
    decreases v, 0int,
{
    reveal_strlit("\"");
    reveal_strlit("[");
    reveal_strlit("]");
    reveal_strlit("{");
    reveal_strlit("}");
    reveal_strlit("null");
    reveal_strlit("true");
    reveal_strlit("false");
    let t = value_text(v);
    let j = i + t.len();
    match v {
        JsonView::Text(x) => if bare(x) {
            assert forall|k: int| i <= k < j implies !marks(#[trigger] s[k]) && s[k] != ',' by {
                assert(s[i + (k - i)] == t[k - i]);
                assert(bare_char(t[k - i]));
            }
            lemma_plain_passes(s, i, j, 0);
        } else {
            assert(t == "\""@ + x + "\""@);
            assert(s[i + 0] == t[0]);
            assert(s[i + (t.len() - 1)] == t[t.len() - 1]);
            assert forall|k: int| i < k < j - 1 implies #[trigger] s[k] != '"' by {
                assert(s[i + (k - i)] == t[k - i]);
                assert(t[k - i] == x[k - i - 1]);
            }
            lemma_quoted_passes(s, i, j - 1);
        },
        JsonView::Array(items) => {
            let inner = joined(value_items(items), " "@);
            assert(t == "["@ + inner + "]"@);
            assert(s[i + 0] == t[0]);
            assert(s[i + (t.len() - 1)] == t[t.len() - 1]);
            assert(t =~= "["@ + (inner + "]"@));
            lemma_holds_parts(s, i, "["@, inner + "]"@);
            lemma_holds_parts(s, i + 1, inner, "]"@);
            lemma_items_pass(s, i + 1, items);
            lemma_bracket_passes(s, i, j - 1);
        },
        JsonView::Object(fields) => {
            let inner = joined(value_fields(fields), ", "@);
            assert(t == "{"@ + inner + "}"@);
            assert(s[i + 0] == t[0]);
            assert(s[i + (t.len() - 1)] == t[t.len() - 1]);
            assert(t =~= "{"@ + (inner + "}"@));
            lemma_holds_parts(s, i, "{"@, inner + "}"@);
            lemma_holds_parts(s, i + 1, inner, "}"@);
            lemma_fields_pass(s, i + 1, fields);
            lemma_bracket_passes(s, i, j - 1);
        },
        _ => {
            assert(t == v.text());
            assert forall|k: int| i <= k < j implies !marks(#[trigger] s[k]) && s[k] != ',' by {
                assert(s[i + (k - i)] == t[k - i]);
            }
            lemma_plain_passes(s, i, j, 0);
        },
    }
}

proof fn lemma_items_pass(s: Seq<char>, i: int, items: Seq<JsonView>)
    requires
        readable_items(items),
        holds(s, i, joined(value_items(items), " "@)),
    ensures
        passes(s, i, i + joined(value_items(items), " "@).len(), 1),
    decreases items, 0int,
{
    reveal_strlit(" ");
    if items.len() > 0 {
        let last = value_text(items.last());
        let parts = value_items(items);
        assert(parts.drop_last() =~= value_items(items.drop_last()));
        lemma_items_len(items);
        let all = joined(parts, " "@);
        if items.len() == 1 {
            assert(all == last);
            lemma_value_passes(s, i, items.last());
        } else {
            let before = joined(value_items(items.drop_last()), " "@);
            assert(all == before + " "@ + last);
            assert(all =~= before + (" "@ + last));
            lemma_holds_parts(s, i, before, " "@ + last);
            lemma_holds_parts(s, i + before.len(), " "@, last);
            lemma_items_pass(s, i, items.drop_last());
            let m = i + before.len();
            assert(s[m + 0] == " "@[0]);
            lemma_plain_passes(s, m, m + 1, 1);
            lemma_value_passes(s, m + 1, items.last());
            lemma_passes_on(s, i, m, m + 1, 1);
            lemma_passes_on(s, i, m + 1, m + 1 + last.len(), 1);
        }
    } else {
        assert(joined(value_items(items), " "@).len() == 0);
    }
}

proof fn lemma_fields_pass(s: Seq<char>, i: int, fields: Seq<(Seq<char>, JsonView)>)
    requires
        readable_fields(fields),
        holds(s, i, joined(value_fields(fields), ", "@)),
    ensures
        passes(s, i, i + joined(value_fields(fields), ", "@).len(), 1),
    decreases fields, 0int,
{
    reveal_strlit(", ");
    if fields.len() > 0 {
        let key = fields.last().0;
        let last = key + ":"@ + value_text(fields.last().1);
        let parts = value_fields(fields);
        assert(parts.drop_last() =~= value_fields(fields.drop_last()));
        lemma_fields_len(fields);
        let all = joined(parts, ", "@);
        if fields.len() == 1 {
            assert(all == last);
            lemma_pair_passes(s, i, key, fields.last().1, 1);
        } else {
            let before = joined(value_fields(fields.drop_last()), ", "@);
            assert(all == before + ", "@ + last);
            assert(all =~= before + (", "@ + last));
            lemma_holds_parts(s, i, before, ", "@ + last);
            lemma_holds_parts(s, i + before.len(), ", "@, last);
            lemma_fields_pass(s, i, fields.drop_last());
            let m = i + before.len();
            assert(s[m + 0] == ", "@[0]);
            assert(s[m + 1] == ", "@[1]);
            lemma_plain_passes(s, m, m + 2, 1);
            lemma_pair_passes(s, m + 2, key, fields.last().1, 1);
            lemma_passes_on(s, i, m, m + 2, 1);
            lemma_passes_on(s, i, m + 2, m + 2 + last.len(), 1);
        }
    } else {
        assert(joined(value_fields(fields), ", "@).len() == 0);
    }
}

proof fn lemma_pair_passes(s: Seq<char>, i: int, key: Seq<char>, v: JsonView, lo: nat)
    requires
        unmarked(key),
        lo == 0 ==> forall|k: int| 0 <= k < key.len() ==> #[trigger] key[k] != ',',
        readable(v),
        holds(s, i, key + ":"@ + value_text(v)),
    ensures
        passes(s, i, i + (key + ":"@ + value_text(v)).len(), lo),
    decreases v, 1int,
{
    reveal_strlit(":");
    let head = key + ":"@;
    lemma_holds_parts(s, i, head, value_text(v));
    let m = i + head.len();
    assert forall|k: int| i <= k < m implies !marks(#[trigger] s[k]) && (lo == 0 ==> s[k] != ',') by {
        assert(s[i + (k - i)] == head[k - i]);
        if k - i < key.len() {
            assert(head[k - i] == key[k - i]);
        } else {
            assert(head[k - i] == ':');
        }
    }
    lemma_plain_passes(s, i, m, lo);
    lemma_value_passes(s, m, v);
    let j = m + value_text(v).len();
    assert(passes(s, m, j, lo)) by {
        assert forall|depth: nat| depth >= lo implies #[trigger] comma(s, m, depth, false) == comma(
            s,
            j,
            depth,
            false,
        ) by {}
    }
    lemma_passes_on(s, i, m, j, lo);
}

proof fn lemma_items_len(items: Seq<JsonView>)
    ensures
        value_items(items).len() == items.len(),
    decreases items.len(),
{
    if items.len() > 0 {
        lemma_items_len(items.drop_last());
    }
}

proof fn lemma_fields_len(fields: Seq<(Seq<char>, JsonView)>)
    ensures
        value_fields(fields).len() == fields.len(),
    decreases fields.len(),
{
    if fields.len() > 0 {
        lemma_fields_len(fields.drop_last());
    }
}

// ---------------------------------------------------------------------------
// Arguments.
// ---------------------------------------------------------------------------

/// A key that reads back: not empty, no white space at its ends, no mark, no comma and no colon.
pub open spec fn tidy(key: Seq<char>) -> bool {
    &&& key.len() > 0
    &&& !is_space(key[0])
    &&& !is_space(key.last())
    &&& unmarked(key)
    &&& forall|i: int| 0 <= i < key.len() ==> #[trigger] key[i] != ',' && key[i] != ':'
}

/// Arguments that read back.
pub open spec fn legible(args: Seq<(Seq<char>, JsonView)>) -> bool {
    forall|i: int| 0 <= i < args.len() ==> tidy((#[trigger] args[i]).0) && readable(args[i].1)
}

/// A value as it reads back: a text is itself, anything else is as the line shows it.
pub open spec fn read_value(v: JsonView) -> Seq<char> {
    match v {
        JsonView::Text(s) => s,
        _ => value_text(v),
    }
}

/// Arguments as they read back.
pub open spec fn read_args(args: Seq<(Seq<char>, JsonView)>) -> Seq<(Seq<char>, Seq<char>)> {
    Seq::new(args.len(), |i: int| (args[i].0, read_value(args[i].1)))
}

/// Arguments as a line shows them.
pub open spec fn pair_texts(args: Seq<(Seq<char>, JsonView)>) -> Seq<Seq<char>> {
    Seq::new(args.len(), |i: int| args[i].0 + ":"@ + value_text(args[i].1))
}

proof fn lemma_no_trim(s: Seq<char>)
    requires
        s.len() > 0,
        !is_space(s[0]),
        !is_space(s.last()),
    ensures
        trim(s) == s,
{
}

/// A value's text is not empty and has no white space at its ends.
proof fn lemma_value_ends(v: JsonView)
    requires
        readable(v),
    ensures
        value_text(v).len() > 0,
        !is_space(value_text(v)[0]),
        !is_space(value_text(v).last()),
        unquoted(value_text(v)) == read_value(v),
{
    reveal_strlit("\"");
    reveal_strlit("[");
    reveal_strlit("]");
    reveal_strlit("{");
    reveal_strlit("}");
    reveal_strlit("null");
    reveal_strlit("true");
    reveal_strlit("false");
    let t = value_text(v);
    match v {
        JsonView::Text(x) => if bare(x) {
            assert(bare_char(x[0]) && bare_char(x[x.len() - 1]));
            assert(t.take(1)[0] != '"');
        } else {
            assert(t == "\""@ + x + "\""@);
            assert(t =~= "\""@ + (x + "\""@));
            lemma_prefix("\""@, x + "\""@);
            assert((x + "\""@).drop_last() =~= x);
        },
        JsonView::Array(items) => {
            assert(t == "["@ + joined(value_items(items), " "@) + "]"@);
            assert(t.take(1)[0] == '[');
        },
        JsonView::Object(fields) => {
            assert(t == "{"@ + joined(value_fields(fields), ", "@) + "}"@);
            assert(t.take(1)[0] == '{');
        },
        JsonView::Number { text, .. } => {
            assert(t == text);
            assert(!marks(text[0]) && !is_space(text[0]));
            assert(!is_space(text[text.len() - 1]));
            assert(t.take(1)[0] != '"');
        },
        _ => {
            assert(t == v.text());
            assert(t.take(1)[0] != '"');
        },
    }
}

/// A pair reads back, whether or not a space stands before it.
proof fn lemma_pair_reads(lead: Seq<char>, key: Seq<char>, v: JsonView)
    requires
        lead == Seq::<char>::empty() || lead == " "@,
        tidy(key),
        readable(v),
    ensures
        pair_of(lead + (key + ":"@ + value_text(v))) == Some((key, read_value(v))),
{
    reveal_strlit(" ");
    reveal_strlit(":");
    lemma_value_ends(v);
    let t = value_text(v);
    let pair = key + ":"@ + t;
    assert(pair[0] == key[0]);
    assert(pair.last() == t.last());
    lemma_no_trim(pair);
    let s = lead + pair;
    if lead.len() == 0 {
        assert(s =~= pair);
    } else {
        assert(s[0] == ' ');
        assert(s.skip(1) =~= pair);
        assert(trim_start(s) == trim_start(s.skip(1)));
    }
    assert(trim(s) == pair);
    lemma_split(key, ":"@, t);
    lemma_no_trim(key);
    lemma_no_trim(t);
}

proof fn lemma_joined_front(parts: Seq<Seq<char>>, sep: Seq<char>)
    requires
        parts.len() > 1,
    ensures
        joined(parts, sep) == parts[0] + (sep + joined(parts.skip(1), sep)),
    decreases parts.len(),
{
    if parts.len() == 2 {
        assert(parts.drop_last()[0] == parts[0]);
        assert(joined(parts.drop_last(), sep) == parts[0]);
        assert(parts.skip(1).len() == 1 && parts.skip(1)[0] == parts.last());
        assert(joined(parts, sep) =~= parts[0] + (sep + parts.last()));
    } else {
        lemma_joined_front(parts.drop_last(), sep);
        assert(parts.drop_last().skip(1) =~= parts.skip(1).drop_last());
        assert(parts.skip(1).last() == parts.last());
        let middle = joined(parts.skip(1).drop_last(), sep);
        assert(joined(parts.skip(1), sep) == middle + sep + parts.last());
        assert(joined(parts, sep) =~= parts[0] + (sep + (middle + sep + parts.last())));
    }
}

/// A pair, with or without a space before it.
pub open spec fn led_pair(lead: Seq<char>, key: Seq<char>, v: JsonView) -> Seq<char> {
    lead + (key + ":"@ + value_text(v))
}

/// No comma separates within a pair: the first one that does stands behind it, or there is none.
proof fn lemma_first_comma(lead: Seq<char>, key: Seq<char>, v: JsonView, tail: Seq<char>)
    requires
        lead == Seq::<char>::empty() || lead == " "@,
        tidy(key),
        readable(v),
        tail.len() == 0 || tail[0] == ',',
    ensures
        comma(led_pair(lead, key, v) + tail, 0, 0, false) == led_pair(lead, key, v).len(),
{
    reveal_strlit(" ");
    let pair = key + ":"@ + value_text(v);
    let first = led_pair(lead, key, v);
    let s = first + tail;
    let m = lead.len() as int;
    let n = first.len() as int;
    assert(holds(s, m, pair)) by {
        assert forall|k: int| 0 <= k < pair.len() implies s[m + k] == #[trigger] pair[k] by {
            assert(first[m + k] == pair[k]);
        }
    }
    assert forall|k: int| 0 <= k < m implies !marks(#[trigger] s[k]) && s[k] != ',' by {
        assert(s[k] == lead[k]);
    }
    lemma_plain_passes(s, 0, m, 0);
    lemma_pair_passes(s, m, key, v, 0);
    lemma_passes_on(s, 0, m, n, 0);
    assert(comma(s, 0, 0, false) == comma(s, n, 0, false));
    if tail.len() > 0 {
        assert(s[n] == tail[0]);
    }
}

/// A single argument reads back.
proof fn lemma_one_arg_reads(lead: Seq<char>, key: Seq<char>, v: JsonView)
    requires
        lead == Seq::<char>::empty() || lead == " "@,
        tidy(key),
        readable(v),
    ensures
        pairs_of(led_pair(lead, key, v)) == seq![(key, read_value(v))],
{
    let s = led_pair(lead, key, v);
    lemma_first_comma(lead, key, v, Seq::empty());
    assert(s + Seq::<char>::empty() =~= s);
    assert(s.take(s.len() as int) =~= s);
    lemma_pair_reads(lead, key, v);
}

/// An argument before others reads back, and then the others do.
proof fn lemma_arg_reads(lead: Seq<char>, key: Seq<char>, v: JsonView, more: Seq<char>)
    requires
        lead == Seq::<char>::empty() || lead == " "@,
        tidy(key),
        readable(v),
    ensures
        pairs_of(led_pair(lead, key, v) + (","@ + more)) == seq![(key, read_value(v))] + pairs_of(
            more,
        ),
{
    reveal_strlit(",");
    let first = led_pair(lead, key, v);
    let tail = ","@ + more;
    let s = first + tail;
    let n = first.len() as int;
    assert(tail[0] == ',');
    lemma_first_comma(lead, key, v, tail);
    assert(s.take(n) =~= first);
    assert(s.skip(n + 1) =~= more);
    lemma_pair_reads(lead, key, v);
}

/// Arguments behind the first read back where they did before it.
proof fn lemma_legible_rest(args: Seq<(Seq<char>, JsonView)>)
    requires
        legible(args),
        args.len() > 0,
    ensures
        legible(args.skip(1)),
        pair_texts(args.skip(1)) == pair_texts(args).skip(1),
        read_args(args) == seq![(args[0].0, read_value(args[0].1))] + read_args(args.skip(1)),
        tidy(args[0].0),
        readable(args[0].1),
{
    let rest = args.skip(1);
    assert(pair_texts(rest) =~= pair_texts(args).skip(1));
    assert forall|i: int| 0 <= i < rest.len() implies tidy((#[trigger] rest[i]).0) && readable(
        rest[i].1,
    ) by {
        assert(rest[i] == args[i + 1]);
    }
    assert(read_args(args) =~= seq![(args[0].0, read_value(args[0].1))] + read_args(rest));
}

/// The arguments of a line read back.
proof fn lemma_args_read(lead: Seq<char>, args: Seq<(Seq<char>, JsonView)>)
    requires
        lead == Seq::<char>::empty() || (lead == " "@ && args.len() > 0),
        legible(args),
    ensures
        pairs_of(lead + joined(pair_texts(args), ", "@)) == read_args(args),
    decreases args.len(),
{
    let texts = pair_texts(args);
    let s = lead + joined(texts, ", "@);
    if args.len() == 0 {
        lemma_no_args(s);
        assert(read_args(args) =~= Seq::<(Seq<char>, Seq<char>)>::empty());
    } else {
        lemma_legible_rest(args);
        let (key, v) = args[0];
        let rest = args.skip(1);
        assert(texts[0] == key + ":"@ + value_text(v));
        if args.len() == 1 {
            assert(s == led_pair(lead, key, v));
            lemma_one_arg_reads(lead, key, v);
            assert(read_args(rest) =~= Seq::<(Seq<char>, Seq<char>)>::empty());
            assert(read_args(args) =~= seq![(key, read_value(v))]);
        } else {
            let more = " "@ + joined(pair_texts(rest), ", "@);
            lemma_joined_front(texts, ", "@);
            lemma_comma_space(texts[0], joined(pair_texts(rest), ", "@), lead);
            assert(s == led_pair(lead, key, v) + (","@ + more));
            lemma_arg_reads(lead, key, v, more);
            lemma_args_read(" "@, rest);
        }
    }
}

/// Nothing reads back as nothing.
proof fn lemma_no_args(s: Seq<char>)
    requires
        s.len() == 0,
    ensures
        pairs_of(s) == Seq::<(Seq<char>, Seq<char>)>::empty(),
{
    reveal_strlit(":");
    assert(s.take(0) =~= s);
    assert(trim(s) == s);
    assert(split_once(s, ":"@) is None);
}

proof fn lemma_comma_space(first: Seq<char>, others: Seq<char>, lead: Seq<char>)
    ensures
        lead + (first + (", "@ + others)) == (lead + first) + (","@ + (" "@ + others)),
{
    reveal_strlit(", ");
    reveal_strlit(",");
    reveal_strlit(" ");
    assert(", "@ =~= ","@ + " "@);
    assert(lead + (first + (", "@ + others)) =~= (lead + first) + (","@ + (" "@ + others)));
}

/// A directive's arguments in the order in which its line shows them: the verb's own keys first,
/// then the others.
pub open spec fn own_args(
    keys: Seq<Seq<char>>,
    fields: Seq<(Seq<char>, JsonView)>,
) -> Seq<(Seq<char>, JsonView)>
    decreases keys.len(),
{
    if keys.len() == 0 {
        Seq::empty()
    } else {
        let before = own_args(keys.drop_last(), fields);
        match key_at(fields, keys.last(), 0) {
            Some(i) => before.push(fields[i]),
            None => before,
        }
    }
}

/// The arguments whose keys are not the verb's own.
pub open spec fn other_args(
    keys: Seq<Seq<char>>,
    fields: Seq<(Seq<char>, JsonView)>,
) -> Seq<(Seq<char>, JsonView)>
    decreases fields.len(),
{
    if fields.len() == 0 {
        Seq::empty()
    } else if keys.contains(fields.last().0) {
        other_args(keys, fields.drop_last())
    } else {
        other_args(keys, fields.drop_last()).push(fields.last())
    }
}

/// All arguments, in the order in which the line shows them.
pub open spec fn ordered_args(
    keys: Seq<Seq<char>>,
    fields: Seq<(Seq<char>, JsonView)>,
) -> Seq<(Seq<char>, JsonView)> {
    own_args(keys, fields) + other_args(keys, fields)
}

proof fn lemma_own_args(keys: Seq<Seq<char>>, fields: Seq<(Seq<char>, JsonView)>)
    requires
        legible(fields),
    ensures
        legible(own_args(keys, fields)),
        canonical_pairs(keys, fields) == pair_texts(own_args(keys, fields)),
    decreases keys.len(),
{
    if keys.len() > 0 {
        lemma_own_args(keys.drop_last(), fields);
        lemma_key_at(fields, keys.last(), 0);
    }
    assert(canonical_pairs(keys, fields) =~= pair_texts(own_args(keys, fields)));
}

proof fn lemma_other_args(keys: Seq<Seq<char>>, fields: Seq<(Seq<char>, JsonView)>)
    requires
        legible(fields),
    ensures
        legible(other_args(keys, fields)),
        extra_pairs(keys, fields) == pair_texts(other_args(keys, fields)),
    decreases fields.len(),
{
    if fields.len() > 0 {
        let before = fields.drop_last();
        assert(legible(before)) by {
            assert forall|i: int| 0 <= i < before.len() implies tidy((#[trigger] before[i]).0)
                && readable(before[i].1) by {
                assert(before[i] == fields[i]);
            }
        }
        assert(fields[fields.len() - 1] == fields.last());
        lemma_other_args(keys, before);
    }
    assert(extra_pairs(keys, fields) =~= pair_texts(other_args(keys, fields)));
}

proof fn lemma_legible_fields(args: Seq<(Seq<char>, JsonView)>)
    requires
        legible(args),
    ensures
        readable_fields(args),
        value_fields(args) == pair_texts(args),
    decreases args.len(),
{
    if args.len() > 0 {
        let before = args.drop_last();
        assert(legible(before)) by {
            assert forall|i: int| 0 <= i < before.len() implies tidy((#[trigger] before[i]).0)
                && readable(before[i].1) by {
                assert(before[i] == args[i]);
            }
        }
        assert(args[args.len() - 1] == args.last());
        lemma_legible_fields(before);
    }
    assert(value_fields(args) =~= pair_texts(args));
}

/// The arguments of a line end where they end, and read back.
proof fn lemma_proposal(kind: Seq<char>, args: Seq<(Seq<char>, JsonView)>, from: Seq<char>)
    requires
        legible(args),
        kind.len() > 0,
        !is_space(kind[0]),
        forall|i: int| 0 <= i < kind.len() ==> #[trigger] kind[i] != '{',
    ensures
        proposal(
            " "@ + (kind + "{"@ + (joined(pair_texts(args), ", "@) + ("} from "@ + from))),
        ) == Some((kind, read_args(args), from)),
{
    reveal_strlit(" ");
    reveal_strlit("{");
    reveal_strlit("} from ");
    reveal_strlit("from ");
    let inner = joined(pair_texts(args), ", "@);
    let rest = inner + ("} from "@ + from);
    let named = kind + "{"@ + rest;
    let s = " "@ + named;
    assert(s[0] == ' ');
    assert(s.skip(1) =~= named);
    assert(named[0] == kind[0]);
    assert(trim_start(s) == trim_start(s.skip(1)));
    assert(trim_start(s) == named);
    lemma_split(kind, "{"@, rest);
    let n = inner.len() as int;
    lemma_legible_fields(args);
    assert(holds(rest, 0, inner)) by {
        assert forall|k: int| 0 <= k < inner.len() implies rest[0 + k] == #[trigger] inner[k] by {}
    }
    lemma_fields_pass(rest, 0, args);
    assert(rest[n] == "} from "@[0]);
    assert(closing(rest, 0, 1, false) == closing(rest, n, 1, false));
    assert(closing(rest, n, 1, false) == Some(n));
    assert(rest.take(n) =~= inner);
    let tail = rest.skip(n + 1);
    assert(tail =~= " "@ + ("from "@ + from));
    assert(tail[0] == ' ');
    assert(tail.skip(1) =~= "from "@ + from);
    assert(("from "@ + from)[0] == 'f');
    assert(trim_start(tail) == trim_start(tail.skip(1)));
    lemma_prefix("from "@, from);
    lemma_args_read(Seq::empty(), args);
    assert(Seq::<char>::empty() + inner =~= inner);
}

/// A name in a directive line: letters and underscores.
pub open spec fn name_char(c: char) -> bool {
    ('a' <= c && c <= 'z') || c == '_'
}

proof fn lemma_names(d: DirectiveView)
    ensures
        forall|i: int| 0 <= i < d.tier.name().len() ==> name_char(#[trigger] d.tier.name()[i]),
        forall|i: int| 0 <= i < d.state.word().len() ==> name_char(#[trigger] d.state.word()[i]),
        forall|i: int| 0 <= i < d.kind.name().len() ==> name_char(#[trigger] d.kind.name()[i]),
        d.kind.name().len() > 0,
{
    reveal_strlit("judgment");
    reveal_strlit("mechanical");
    reveal_strlit("pending");
    reveal_strlit("fulfilled");
    reveal_strlit("declined");
    reveal_strlit("set_parallelism");
    reveal_strlit("sleep_agent");
    reveal_strlit("wake_agent");
    reveal_strlit("propose_respecialize");
    reveal_strlit("propose_reallocate");
    reveal_strlit("propose_rebalance");
}

proof fn lemma_numbered_tier(id: u64, tier: Seq<char>, state: Seq<char>, tail: Seq<char>)
    requires
        forall|i: int| 0 <= i < tier.len() ==> name_char(#[trigger] tier[i]),
        forall|i: int| 0 <= i < state.len() ==> name_char(#[trigger] state[i]),
    ensures
        numbered_tier(
            dec(id as nat) + " "@ + ("["@ + (tier + ", "@ + state + "]"@ + tail)),
        ) == Some((id, tier, state, tail)),
{
    reveal_strlit(" ");
    reveal_strlit("[");
    reveal_strlit("]");
    reveal_strlit(", ");
    lemma_whole(id);
    let bracket = tier + ", "@ + state;
    let inner = bracket + "]"@ + tail;
    let rest = "["@ + inner;
    assert forall|i: int| 0 <= i < dec(id as nat).len() implies #[trigger] dec(id as nat)[i]
        != ' ' by {
        assert(is_digit(dec(id as nat)[i]));
    }
    lemma_split(dec(id as nat), " "@, rest);
    assert(rest[0] == '[');
    assert(trim_start(rest) == rest);
    lemma_prefix("["@, inner);
    assert forall|i: int| 0 <= i < bracket.len() implies #[trigger] bracket[i] != ']' by {
        if i < tier.len() {
            assert(bracket[i] == tier[i]);
        } else if i >= tier.len() + 2 {
            assert(bracket[i] == state[i - tier.len() - 2]);
        } else {
            assert(bracket[i] == ", "@[i - tier.len()]);
        }
    }
    lemma_split(bracket, "]"@, tail);
    lemma_split(tier, ", "@, state);
}

/// A directive's line reads back: its number, tier, state, kind and issuer, and its arguments in the
/// order of the line. A text that holds a double quote, or a key that holds a character by which
/// arguments are taken apart, is not written so that it could.
pub proof fn directive_lines_read_back(d: DirectiveView, fields: Seq<(Seq<char>, JsonView)>)
    requires
        d.args == JsonView::Object(fields),
        legible(fields),
    ensures
        directive_of(d.line()) == Some(
            ShownDirective {
                id: d.id.0,
                tier: d.tier.name(),
                state: d.state.word(),
                kind: d.kind.name(),
                args: read_args(ordered_args(d.kind.arg_keys(), fields)),
                from: d.from.handle(),
            },
        ),
{
    reveal_strlit(" [");
    reveal_strlit(" ");
    reveal_strlit("[");
    reveal_strlit("] ");
    reveal_strlit("]");
    let keys = d.kind.arg_keys();
    let args = ordered_args(keys, fields);
    lemma_own_args(keys, fields);
    lemma_other_args(keys, fields);
    let (own, other) = (own_args(keys, fields), other_args(keys, fields));
    assert(pair_texts(args) =~= pair_texts(own) + pair_texts(other));
    assert(legible(args)) by {
        assert forall|i: int| 0 <= i < args.len() implies tidy((#[trigger] args[i]).0) && readable(
            args[i].1,
        ) by {
            if i < own.len() {
                assert(args[i] == own[i]);
            } else {
                assert(args[i] == other[i - own.len()]);
            }
        }
    }
    let inner = joined(pair_texts(args), ", "@);
    assert(args_text(d.kind, d.args) == inner);
    lemma_names(d);
    let from = d.from.handle();
    let (tier, state, kind) = (d.tier.name(), d.state.word(), d.kind.name());
    let posed = kind + "{"@ + (inner + ("} from "@ + from));
    let tail = " "@ + posed;
    assert(name_char(kind[0]));
    assert forall|i: int| 0 <= i < kind.len() implies #[trigger] kind[i] != '{' by {
        assert(name_char(kind[i]));
    }
    lemma_proposal(kind, args, from);
    lemma_numbered_tier(d.id.0, tier, state, tail);
    let rest = dec(d.id.0 as nat) + " "@ + ("["@ + (tier + ", "@ + state + "]"@ + tail));
    lemma_prefix("- directive "@, rest);
    lemma_line_shape(d.id.0, tier, state, kind, inner, from);
    assert(d.line() == "- directive "@ + rest);
}

proof fn lemma_line_shape(
    id: u64,
    tier: Seq<char>,
    state: Seq<char>,
    kind: Seq<char>,
    inner: Seq<char>,
    from: Seq<char>,
)
    ensures
        "- directive "@ + dec(id as nat) + " ["@ + tier + ", "@ + state + "] "@ + kind + "{"@ + inner
            + "} from "@ + from == "- directive "@ + (dec(id as nat) + " "@ + ("["@ + (tier + ", "@
            + state + "]"@ + (" "@ + (kind + "{"@ + (inner + ("} from "@ + from))))))),
{
    reveal_strlit(" [");
    reveal_strlit(" ");
    reveal_strlit("[");
    reveal_strlit("] ");
    reveal_strlit("]");
    assert(" ["@ =~= " "@ + "["@);
    assert("] "@ =~= "]"@ + " "@);
    let n = dec(id as nat);
    let a = "- directive "@ + n + " ["@ + tier + ", "@ + state;
    let b = tier + ", "@ + state;
    assert(a =~= "- directive "@ + (n + " "@ + ("["@ + b)));
    let c = kind + "{"@ + inner + "} from "@ + from;
    assert(c =~= kind + "{"@ + (inner + ("} from "@ + from)));
    assert("- directive "@ + n + " ["@ + tier + ", "@ + state + "] "@ + kind + "{"@ + inner
        + "} from "@ + from =~= a + "] "@ + c);
    assert(a + "] "@ + c =~= a + ("]"@ + (" "@ + c)));
    assert("- directive "@ + (n + " "@ + ("["@ + b)) + ("]"@ + (" "@ + c)) =~= "- directive "@ + (n
        + " "@ + ("["@ + (b + "]"@ + (" "@ + c)))));
}

} // verus!
