//! The shared knowledge of a run: numbered entries, the lexical features that vectors are made of,
//! and the ranking of search hits.
use crate::agent::AgentId;
use crate::hash::{fnv, fnv1a64};
use crate::ids::{EventId, KnowledgeEntryId};
use crate::text::{
    byte_len, bytes_in, chars_of, lowercase, split_words, texts, words, Separator,
};
use vstd::prelude::*;

verus! {

/// What an entry came from.
#[derive(Clone, Copy, PartialEq, Eq, Structural, Debug, Hash)]
pub enum KnowledgeKind {
    /// A message.
    Message,
    /// The result of a task.
    TaskCompletion,
    /// A note.
    Note,
}

impl KnowledgeKind {
    /// The kind's name.
    pub open spec fn name(self) -> Seq<char> {
        match self {
            KnowledgeKind::Message => "Message"@,
            KnowledgeKind::TaskCompletion => "TaskCompletion"@,
            KnowledgeKind::Note => "Note"@,
        }
    }

    /// The kind's name.
    pub fn as_str(&self) -> (s: &'static str)
        ensures
            s@ == self.name(),
    {
        match self {
            KnowledgeKind::Message => "Message",
            KnowledgeKind::TaskCompletion => "TaskCompletion",
            KnowledgeKind::Note => "Note",
        }
    }
}

/// One entry of the store.
#[derive(PartialEq, Eq, Debug)]
pub struct KnowledgeEntry {
    /// Its number.
    pub id: KnowledgeEntryId,
    /// What it says.
    pub text: String,
    /// Who wrote it.
    pub author: AgentId,
    /// The event that brought it.
    pub source_event: EventId,
    /// What it came from.
    pub kind: KnowledgeKind,
}

/// An entry in specifications.
pub struct EntryView {
    /// Its number.
    pub id: KnowledgeEntryId,
    /// What it says.
    pub text: Seq<char>,
    /// Who wrote it.
    pub author: AgentId,
    /// The event that brought it.
    pub source_event: EventId,
    /// What it came from.
    pub kind: KnowledgeKind,
}

impl View for KnowledgeEntry {
    type V = EntryView;

    open spec fn view(&self) -> EntryView {
        EntryView {
            id: self.id,
            text: self.text@,
            author: self.author,
            source_event: self.source_event,
            kind: self.kind,
        }
    }
}

impl Clone for KnowledgeEntry {
    fn clone(&self) -> (r: KnowledgeEntry)
        ensures
            r == *self,
    {
        KnowledgeEntry {
            id: self.id,
            text: self.text.clone(),
            author: self.author,
            source_event: self.source_event,
            kind: self.kind,
        }
    }
}

/// A search hit: an entry, and its similarity as text with two decimal places and as a JSON number
/// rounded to hundredths.
#[derive(PartialEq, Eq, Debug)]
pub struct ScoredEntry {
    /// The entry.
    pub entry: KnowledgeEntry,
    /// The similarity with two decimal places.
    pub score: String,
    /// The similarity rounded to hundredths, as a JSON number is written.
    pub rounded: String,
}

/// Why a text could not be embedded.
#[derive(PartialEq, Eq, Debug)]
pub enum EmbedError {
    /// The backend failed.
    Backend(String),
}

impl EmbedError {
    /// The error in words.
    pub open spec fn text(self) -> Seq<char> {
        "embedding backend error: "@ + self->0@
    }

    /// The error in words.
    pub fn message(&self) -> (s: String)
        ensures
            s@ == self.text(),
    {
        match self {
            EmbedError::Backend(m) => {
                let mut s = "embedding backend error: ".to_owned();
                s.push_str(m.as_str());
                s
            },
        }
    }
}

/// Why the store could not take or find an entry.
#[derive(PartialEq, Eq, Debug)]
pub enum KnowledgeError {
    /// The text could not be embedded.
    Embed(EmbedError),
}

impl KnowledgeError {
    /// The error in words.
    pub open spec fn text(self) -> Seq<char> {
        self->0.text()
    }

    /// The error in words.
    pub fn message(&self) -> (s: String)
        ensures
            s@ == self.text(),
    {
        match self {
            KnowledgeError::Embed(e) => e.message(),
        }
    }
}

/// The entries of a run, numbered from one in the order of their arrival.
#[derive(Debug)]
pub struct KnowledgeStore {
    entries: Vec<KnowledgeEntry>,
}

/// The bytes of the texts of the first `n` entries.
pub open spec fn entry_bytes(entries: Seq<EntryView>) -> nat
    decreases entries.len(),
{
    if entries.len() == 0 {
        0
    } else {
        entry_bytes(entries.drop_last()) + byte_len(entries.last().text)
    }
}

/// Numbers run from one without gaps.
pub open spec fn numbered(entries: Seq<EntryView>) -> bool {
    forall|i: int| 0 <= i < entries.len() ==> (#[trigger] entries[i]).id.0 == i + 1
}

impl View for KnowledgeStore {
    type V = Seq<EntryView>;

    closed spec fn view(&self) -> Seq<EntryView> {
        Seq::new(self.entries@.len(), |i: int| self.entries@[i]@)
    }
}

impl Default for KnowledgeStore {
    fn default() -> (s: KnowledgeStore)
        ensures
            s@ == Seq::<EntryView>::empty(),
    {
        KnowledgeStore::new()
    }
}

impl KnowledgeStore {
    /// An empty store.
    pub fn new() -> (s: KnowledgeStore)
        ensures
            s@ == Seq::<EntryView>::empty(),
    {
        let s = KnowledgeStore { entries: Vec::new() };
        assert(s@ =~= Seq::<EntryView>::empty());
        s
    }

    /// The number that the next entry will get.
    pub fn next_id(&self) -> (id: KnowledgeEntryId)
        requires
            self@.len() < u64::MAX,
        ensures
            id.0 == self@.len() + 1,
    {
        KnowledgeEntryId(self.entries.len() as u64 + 1)
    }

    /// Adds an entry under the next number.
    pub fn insert(
        &mut self,
        text: &str,
        author: AgentId,
        source_event: EventId,
        kind: KnowledgeKind,
    ) -> (id: KnowledgeEntryId)
        requires
            old(self)@.len() < u64::MAX,
        ensures
            id.0 == old(self)@.len() + 1,
            final(self)@ == old(self)@.push(
                EntryView { id, text: text@, author, source_event, kind },
            ),
            numbered(old(self)@) ==> numbered(final(self)@),
    {
        let id = self.next_id();
        let ghost before = self@;
        self.entries.push(
            KnowledgeEntry { id, text: text.to_owned(), author, source_event, kind },
        );
        assert(self@ =~= before.push(EntryView { id, text: text@, author, source_event, kind }));
        id
    }

    /// How many entries.
    pub fn entry_count(&self) -> (n: usize)
        ensures
            n == self@.len(),
    {
        self.entries.len()
    }

    /// How many bytes the texts of all entries take.
    pub fn byte_size(&self) -> (n: usize)
        requires
            entry_bytes(self@) <= usize::MAX,
        ensures
            n == entry_bytes(self@),
    {
        let mut n: usize = 0;
        let mut i: usize = 0;
        assert(self@.take(0) =~= Seq::<EntryView>::empty());
        while i < self.entries.len()
            invariant
                0 <= i <= self.entries.len(),
                n == entry_bytes(self@.take(i as int)),
                entry_bytes(self@) <= usize::MAX,
            decreases self.entries.len() - i,
        {
            assert(self@.take(i + 1).drop_last() =~= self@.take(i as int));
            proof {
                lemma_entry_bytes(self@, i + 1);
            }
            n = n + bytes_in(self.entries[i].text.as_str());
            i = i + 1;
        }
        assert(self@.take(i as int) =~= self@);
        n
    }

    /// All entries in the order of their numbers.
    pub fn entries(&self) -> (r: &Vec<KnowledgeEntry>)
        ensures
            r@.len() == self@.len(),
            forall|i: int| 0 <= i < r@.len() ==> (#[trigger] r@[i])@ == self@[i],
    {
        &self.entries
    }
}

proof fn lemma_entry_bytes(entries: Seq<EntryView>, i: int)
    requires
        0 <= i <= entries.len(),
    ensures
        entry_bytes(entries.take(i)) <= entry_bytes(entries),
    decreases entries.len() - i,
{
    if i == entries.len() {
        assert(entries.take(i) =~= entries);
    } else {
        lemma_entry_bytes(entries, i + 1);
        assert(entries.take(i + 1).drop_last() =~= entries.take(i));
    }
}

// ---------------------------------------------------------------------------
// Lexical features.
// ---------------------------------------------------------------------------

/// The hash of a word.
pub open spec fn word_hash(word: Seq<char>) -> u64 {
    fnv(vstd::utf8::encode_utf8(word))
}

/// Signed counts in `dims` buckets: each word adds one to its bucket, or takes one off if the top
/// bit of its hash is set.
pub open spec fn bucket_counts(list: Seq<Seq<char>>, dims: nat) -> Seq<int>
    decreases list.len(),
{
    if list.len() == 0 {
        Seq::new(dims, |i: int| 0)
    } else {
        let before = bucket_counts(list.drop_last(), dims);
        let h = word_hash(list.last());
        let b = h as int % dims as int;
        before.update(
            b,
            before[b] + if h >= 0x8000_0000_0000_0000 {
                -1int
            } else {
                1int
            },
        )
    }
}

/// The signed bucket counts of a text's lower-case words.
pub open spec fn features(text: Seq<char>, dims: nat) -> Seq<int> {
    bucket_counts(words(lowercase(text), Separator::NonAlphanumeric), dims)
}

proof fn lemma_bucket_len(list: Seq<Seq<char>>, dims: nat)
    requires
        dims > 0,
    ensures
        bucket_counts(list, dims).len() == dims,
    decreases list.len(),
{
    if list.len() > 0 {
        lemma_bucket_len(list.drop_last(), dims);
    }
}

/// Computes the signed bucket counts of a text; none without buckets.
pub fn feature_counts(text: &str, dims: usize) -> (r: Vec<i128>)
    ensures
        r@.len() == dims,
        dims > 0 ==> forall|i: int| 0 <= i < dims ==> #[trigger] r@[i] == features(text@, dims as nat)[i],
{
    let mut r: Vec<i128> = Vec::new();
    let mut n: usize = 0;
    while n < dims
        invariant
            0 <= n <= dims,
            r@.len() == n,
            forall|i: int| 0 <= i < n ==> #[trigger] r@[i] == 0,
        decreases dims - n,
    {
        r.push(0);
        n = n + 1;
    }
    if dims == 0 {
        return r;
    }
    let lowered = text.to_lowercase();
    let chars = chars_of(lowered.as_str());
    let list = split_words(chars.as_slice(), Separator::NonAlphanumeric);
    let ghost all = texts(list@);
    let mut i: usize = 0;
    assert(all.take(0) =~= Seq::<Seq<char>>::empty());
    while i < list.len()
        invariant
            0 <= i <= list.len(),
            all == texts(list@),
            r@.len() == dims,
            dims > 0,
            bucket_counts(all.take(i as int), dims as nat).len() == dims,
            forall|k: int|
                0 <= k < dims ==> #[trigger] r@[k] == bucket_counts(
                    all.take(i as int),
                    dims as nat,
                )[k] && -i <= r@[k] <= i,
        decreases list.len() - i,
    {
        assert(all.take(i + 1).drop_last() =~= all.take(i as int));
        assert(all.take(i + 1).last() == list@[i as int]@);
        let word = list[i].as_str();
        let h = fnv1a64(word.as_bytes());
        assert(h == word_hash(list@[i as int]@));
        let b: usize = (h % (dims as u64)) as usize;
        proof {
            lemma_bucket_len(all.take(i + 1), dims as nat);
        }
        let step: i128 = if h >= 0x8000_0000_0000_0000 { -1 } else { 1 };
        let count: i128 = r[b] + step;
        r.set(b, count);
        i = i + 1;
    }
    assert(all.take(i as int) =~= all);
    r
}

/// Embeds texts by hashing their words into a fixed number of buckets, at least one.
#[derive(Clone, Copy, PartialEq, Eq, Structural, Debug)]
pub struct FeatureHashEmbedder {
    dimensions: usize,
}

/// The number of buckets unless another is asked for.
pub const DEFAULT_DIMENSIONS: usize = 256;

impl Default for FeatureHashEmbedder {
    fn default() -> (e: FeatureHashEmbedder)
        ensures
            e.buckets() == 256,
    {
        FeatureHashEmbedder::new()
    }
}

impl FeatureHashEmbedder {
    /// The number of buckets.
    pub closed spec fn buckets(self) -> nat {
        self.dimensions as nat
    }

    /// With the usual number of buckets.
    pub fn new() -> (e: FeatureHashEmbedder)
        ensures
            e.buckets() == 256,
    {
        FeatureHashEmbedder::with_dimensions(DEFAULT_DIMENSIONS)
    }

    /// With the given number of buckets, or one if that is zero.
    pub fn with_dimensions(dimensions: usize) -> (e: FeatureHashEmbedder)
        ensures
            e.buckets() == (if dimensions == 0 {
                1
            } else {
                dimensions as nat
            }),
    {
        FeatureHashEmbedder { dimensions: if dimensions == 0 { 1 } else { dimensions } }
    }

    /// The number of buckets.
    pub fn dimensions(&self) -> (n: usize)
        ensures
            n == self.buckets(),
    {
        self.dimensions
    }

    /// The signed bucket counts of a text, the direction of its vector.
    pub fn embed_text(&self, text: &str) -> (r: Vec<i128>)
        ensures
            r@.len() == self.buckets(),
            self.buckets() > 0 ==> forall|i: int|
                0 <= i < r@.len() ==> #[trigger] r@[i] == features(text@, self.buckets())[i],
    {
        feature_counts(text, self.dimensions)
    }
}

// ---------------------------------------------------------------------------
// Ranking.
// ---------------------------------------------------------------------------

/// Position `x` ranks before position `y`: a greater key, or an equal one and an earlier position.
pub open spec fn ranks_before(keys: Seq<i32>, x: int, y: int) -> bool {
    keys[x] > keys[y] || (keys[x] == keys[y] && x < y)
}

/// A position put in its place among ranked positions.
pub open spec fn ranked_in(keys: Seq<i32>, s: Seq<usize>, x: usize) -> Seq<usize>
    decreases s.len(),
{
    if s.len() == 0 || keys[s.last() as int] >= keys[x as int] {
        s.push(x)
    } else {
        ranked_in(keys, s.drop_last(), x).push(s.last())
    }
}

/// The first `n` positions, the greatest keys first and equal keys in their own order.
pub open spec fn ranking(keys: Seq<i32>, n: nat) -> Seq<usize>
    decreases n,
{
    if n == 0 {
        Seq::empty()
    } else {
        ranked_in(keys, ranking(keys, (n - 1) as nat), (n - 1) as usize)
    }
}

/// The positions of the `k` greatest keys, the greatest first and equal keys in their own order.
pub fn best(keys: &Vec<i32>, k: usize) -> (r: Vec<usize>)
    ensures
        r@ == ranking(keys@, keys@.len()).take(
            if k <= keys@.len() {
                k as int
            } else {
                keys@.len() as int
            },
        ),
{
    let mut r: Vec<usize> = Vec::new();
    let mut i: usize = 0;
    while i < keys.len()
        invariant
            0 <= i <= keys.len(),
            r@ == ranking(keys@, i as nat),
            r@.len() == i,
            forall|j: int| 0 <= j < r@.len() ==> (#[trigger] r@[j]) < i,
        decreases keys.len() - i,
    {
        let ghost s = r@;
        let mut p: usize = r.len();
        assert(s.take(p as int) =~= s);
        assert(ranked_in(keys@, s.take(p as int), i) + s.skip(p as int) =~= ranked_in(keys@, s, i));
        while p > 0 && keys[r[p - 1]] < keys[i]
            invariant
                0 <= p <= r.len(),
                i < keys.len(),
                r@ == s,
                r@.len() == i,
                forall|j: int| 0 <= j < r@.len() ==> (#[trigger] r@[j]) < i,
                ranked_in(keys@, s, i) == ranked_in(keys@, s.take(p as int), i) + s.skip(p as int),
            decreases p,
        {
            assert(s.take(p as int).drop_last() =~= s.take(p - 1));
            assert(ranked_in(keys@, s.take(p - 1), i).push(s[p - 1]) + s.skip(p as int)
                =~= ranked_in(keys@, s.take(p - 1), i) + s.skip(p - 1));
            p = p - 1;
        }
        r.insert(p, i);
        assert(s.take(p as int).push(i) + s.skip(p as int) =~= r@);
        assert forall|j: int| 0 <= j < r@.len() implies (#[trigger] r@[j]) < i + 1 by {
            if j < p {
                assert(r@[j] == s[j]);
            } else if j > p {
                assert(r@[j] == s[j - 1]);
            }
        }
        i = i + 1;
    }
    if k < r.len() {
        r.truncate(k);
    }
    assert(r@ =~= ranking(keys@, keys@.len()).take(
        if k <= keys@.len() {
            k as int
        } else {
            keys@.len() as int
        },
    ));
    r
}

proof fn lemma_ranked_in(keys: Seq<i32>, s: Seq<usize>, x: usize)
    requires
        x < keys.len(),
        forall|i: int| 0 <= i < s.len() ==> (#[trigger] s[i]) < x,
        forall|i: int, j: int| 0 <= i < j < s.len() ==> ranks_before(keys, s[i] as int, s[j] as int),
    ensures
        ranked_in(keys, s, x).len() == s.len() + 1,
        forall|i: int, j: int|
            0 <= i < j < s.len() + 1 ==> ranks_before(
                keys,
                ranked_in(keys, s, x)[i] as int,
                ranked_in(keys, s, x)[j] as int,
            ),
        forall|i: int|
            0 <= i < s.len() + 1 ==> (#[trigger] ranked_in(keys, s, x)[i] == x || s.contains(
                ranked_in(keys, s, x)[i],
            )),
        ranked_in(keys, s, x).to_multiset() =~= s.to_multiset().insert(x),
    decreases s.len(),
{
    broadcast use vstd::seq_lib::group_to_multiset_ensures;

    let r = ranked_in(keys, s, x);
    if s.len() == 0 || keys[s.last() as int] >= keys[x as int] {
        assert(r == s.push(x));
        assert forall|i: int, j: int| 0 <= i < j < r.len() implies ranks_before(
            keys,
            r[i] as int,
            r[j] as int,
        ) by {
            if j == s.len() {
                if i < s.len() - 1 {
                    assert(ranks_before(keys, s[i] as int, s[s.len() - 1] as int));
                }
                assert(s[i] < x);
            } else {
                assert(ranks_before(keys, s[i] as int, s[j] as int));
            }
        }
        assert forall|i: int| 0 <= i < r.len() implies (#[trigger] r[i] == x || s.contains(r[i])) by {
            if i < s.len() {
                assert(s[i] == r[i]);
            }
        }
    } else {
        let init = s.drop_last();
        assert forall|i: int, j: int| 0 <= i < j < init.len() implies ranks_before(
            keys,
            init[i] as int,
            init[j] as int,
        ) by {
            assert(ranks_before(keys, s[i] as int, s[j] as int));
        }
        lemma_ranked_in(keys, init, x);
        let t = ranked_in(keys, init, x);
        assert(r == t.push(s.last()));
        assert(s =~= init.push(s.last()));
        assert forall|i: int, j: int| 0 <= i < j < r.len() implies ranks_before(
            keys,
            r[i] as int,
            r[j] as int,
        ) by {
            if j == t.len() {
                if t[i] != x {
                    assert(init.contains(t[i]));
                    let m = choose|m: int| 0 <= m < init.len() && init[m] == t[i];
                    assert(ranks_before(keys, s[m] as int, s[s.len() - 1] as int));
                }
            } else {
                assert(ranks_before(keys, t[i] as int, t[j] as int));
            }
        }
        assert forall|i: int| 0 <= i < r.len() implies (#[trigger] r[i] == x || s.contains(r[i])) by {
            if i < t.len() {
                assert(t[i] == r[i]);
                if t[i] != x {
                    let m = choose|m: int| 0 <= m < init.len() && init[m] == t[i];
                    assert(s[m] == r[i]);
                }
            } else {
                assert(s[s.len() - 1] == r[i]);
            }
        }
    }
}

/// A ranking holds every position once, and of two positions the one that ranks before the other
/// stands before it: greater keys first, equal keys in the order of arrival.
pub proof fn ranking_is_stable(keys: Seq<i32>, n: nat)
    requires
        n <= keys.len(),
        keys.len() <= usize::MAX,
    ensures
        ranking(keys, n).len() == n,
        forall|i: int, j: int|
            0 <= i < j < n ==> ranks_before(
                keys,
                ranking(keys, n)[i] as int,
                ranking(keys, n)[j] as int,
            ),
        forall|i: int| 0 <= i < n ==> (#[trigger] ranking(keys, n)[i]) < n,
        forall|x: usize| x < n ==> #[trigger] ranking(keys, n).to_multiset().count(x) == 1,
    decreases n,
{
    broadcast use vstd::seq_lib::group_to_multiset_ensures;

    if n > 0 {
        let m = (n - 1) as nat;
        ranking_is_stable(keys, m);
        let s = ranking(keys, m);
        lemma_ranked_in(keys, s, m as usize);
        let r = ranking(keys, n);
        assert forall|i: int| 0 <= i < n implies (#[trigger] r[i]) < n by {
            if r[i] != m as usize {
                assert(s.contains(r[i]));
                let k = choose|k: int| 0 <= k < s.len() && s[k] == r[i];
                assert(s[k] < m);
            }
        }
        assert forall|x: usize| x < n implies #[trigger] r.to_multiset().count(x) == 1 by {
            if x as nat == m {
                if s.to_multiset().count(x) > 0 {
                    assert(s.contains(x));
                    let k = choose|k: int| 0 <= k < s.len() && s[k] == x;
                    assert(s[k] < m);
                }
            } else {
                assert(s.to_multiset().count(x) == 1);
            }
        }
    }
}

} // verus!
