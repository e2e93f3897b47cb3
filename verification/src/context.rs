//! The phrase registry: a dictionary from normalized phrase-prefix texts to
//! their status, with registration that either succeeds atomically or reports
//! a conflict and leaves the registry unchanged.

use vstd::prelude::*;
use vstd::string::*;
use crate::text::{join, lemma_join_take_unfold, lemma_segments_from_nonempty, segments, sep,
    split_segments};

verus! {

/// The conflicts that registering a phrase can run into.
#[derive(Debug, Copy, Clone, PartialEq, Eq, Structural)]
pub enum SimpleContextCodes {
    /// The phrase itself is already a proper prefix of a registered phrase.
    IncompleteVersionExists,
    /// A proper prefix of the phrase is already a registered phrase.
    CompleteVersionExists,
}

/// Tri-state classification of a looked-up text against the registry.
#[derive(Debug, Copy, Clone, PartialEq, Eq, Structural)]
pub enum PhraseStatus {
    /// A valid proper prefix of a registered phrase; the phrase must continue.
    Incomplete,
    /// A registered phrase in its entirety.
    Complete,
    /// Text that no registered phrase starts with.
    NotAPhrase,
}

/// The status of `key` in the mapping `m`; unknown keys are `NotAPhrase`.
pub open spec fn status_of(m: Map<Seq<char>, PhraseStatus>, key: Seq<char>) -> PhraseStatus {
    if m.contains_key(key) {
        m[key]
    } else {
        PhraseStatus::NotAPhrase
    }
}

/// The capability the reducer consumes: exact-text lookup of a phrase status.
pub trait PhraseContext {
    /// The mapping this provider answers lookups from.
    spec fn phrase_map(&self) -> Map<Seq<char>, PhraseStatus>;

    /// Looks up the exact text `s`.
    fn get_phrase_status(&self, s: &str) -> (status: PhraseStatus)
        ensures
            status == status_of(self.phrase_map(), s@),
    ;
}

/// Records `key` as an `Incomplete` prefix unless some status is already recorded.
pub open spec fn add_prefix(m: Map<Seq<char>, PhraseStatus>, key: Seq<char>) -> Map<
    Seq<char>,
    PhraseStatus,
> {
    if m.contains_key(key) {
        m
    } else {
        m.insert(key, PhraseStatus::Incomplete)
    }
}

/// Records the joins of the first 1..=k segments as `Incomplete` prefixes.
pub open spec fn add_prefixes(
    m: Map<Seq<char>, PhraseStatus>,
    parts: Seq<Seq<char>>,
    k: int,
) -> Map<Seq<char>, PhraseStatus>
    decreases k,
{
    if k <= 0 {
        m
    } else {
        add_prefix(add_prefixes(m, parts, k - 1), join(parts.take(k)))
    }
}

/// What registering the text `s` against the mapping `m` returns, and the
/// mapping afterwards. Registration is atomic: on a conflict, `m` is returned
/// unchanged.
pub open spec fn add_phrase_spec(m: Map<Seq<char>, PhraseStatus>, s: Seq<char>) -> (Result<
    (),
    SimpleContextCodes,
>, Map<Seq<char>, PhraseStatus>) {
    let parts = segments(s);
    if parts.len() == 0 {
        (Ok(()), m)
    } else if exists|k: int|
        1 <= k < parts.len() && status_of(m, join(parts.take(k))) == PhraseStatus::Complete {
        (Err(SimpleContextCodes::CompleteVersionExists), m)
    } else if status_of(m, join(parts)) == PhraseStatus::Incomplete {
        (Err(SimpleContextCodes::IncompleteVersionExists), m)
    } else {
        (Ok(()), add_prefixes(m, parts, parts.len() - 1).insert(join(parts), PhraseStatus::Complete))
    }
}

/// No two entries share a key text.
pub open spec fn keys_unique(entries: Seq<(String, PhraseStatus)>) -> bool {
    forall|i: int, j: int| 0 <= i < j < entries.len() ==> entries[i].0@ != entries[j].0@
}

/// The mapping that a sequence of entries denotes.
pub open spec fn entries_map(entries: Seq<(String, PhraseStatus)>) -> Map<Seq<char>, PhraseStatus>
    decreases entries.len(),
{
    if entries.len() == 0 {
        Map::empty()
    } else {
        entries_map(entries.drop_last()).insert(entries.last().0@, entries.last().1)
    }
}

/// A key is in the mapping exactly when some entry carries it.
proof fn lemma_entries_map_contains(entries: Seq<(String, PhraseStatus)>, key: Seq<char>)
    ensures
        entries_map(entries).contains_key(key) <==> exists|i: int|
            0 <= i < entries.len() && entries[i].0@ == key,
    decreases entries.len(),
{
    if entries.len() > 0 {
        lemma_entries_map_contains(entries.drop_last(), key);
        if entries.last().0@ != key && entries_map(entries).contains_key(key) {
            let i = choose|i: int| 0 <= i < entries.drop_last().len() && entries.drop_last()[i].0@
                == key;
            assert(entries[i].0@ == key);
        }
        if entries.last().0@ != key && (exists|i: int|
            0 <= i < entries.len() && entries[i].0@ == key) {
            let i = choose|i: int| 0 <= i < entries.len() && entries[i].0@ == key;
            assert(entries.drop_last()[i].0@ == key);
        }
    }
}

/// With unique keys, the entry at `i` gives the mapping's value at its key.
proof fn lemma_entries_map_at(entries: Seq<(String, PhraseStatus)>, i: int)
    requires
        keys_unique(entries),
        0 <= i < entries.len(),
    ensures
        entries_map(entries).contains_key(entries[i].0@),
        entries_map(entries)[entries[i].0@] == entries[i].1,
    decreases entries.len(),
{
    if i < entries.len() - 1 {
        assert(keys_unique(entries.drop_last()));
        lemma_entries_map_at(entries.drop_last(), i);
        assert(entries[i].0@ != entries.last().0@);
    }
}

/// With unique keys, the mapping has exactly one key per entry.
proof fn lemma_entries_map_dom_len(entries: Seq<(String, PhraseStatus)>)
    requires
        keys_unique(entries),
    ensures
        entries_map(entries).dom().finite(),
        entries_map(entries).dom().len() == entries.len(),
    decreases entries.len(),
{
    if entries.len() > 0 {
        assert(keys_unique(entries.drop_last()));
        lemma_entries_map_dom_len(entries.drop_last());
        lemma_entries_map_contains(entries.drop_last(), entries.last().0@);
        assert(!entries_map(entries.drop_last()).contains_key(entries.last().0@));
        vstd::set::axiom_set_insert_finite(entries_map(entries.drop_last()).dom(), entries.last().0@);
        vstd::set::axiom_set_insert_len(entries_map(entries.drop_last()).dom(), entries.last().0@);
        assert(entries_map(entries).dom() =~= entries_map(entries.drop_last()).dom().insert(
            entries.last().0@,
        ));
    }
}

/// A well-formed entry sequence never stores `NotAPhrase` as a value.
proof fn lemma_entries_map_stored(entries: Seq<(String, PhraseStatus)>)
    requires
        keys_unique(entries),
        forall|i: int| 0 <= i < entries.len() ==> entries[i].1 != PhraseStatus::NotAPhrase,
    ensures
        forall|key: Seq<char>|
            entries_map(entries).contains_key(key) ==> entries_map(entries)[key]
                != PhraseStatus::NotAPhrase,
{
    assert forall|key: Seq<char>| entries_map(entries).contains_key(key) implies entries_map(
        entries,
    )[key] != PhraseStatus::NotAPhrase by {
        lemma_entries_map_contains(entries, key);
        let i = choose|i: int| 0 <= i < entries.len() && entries[i].0@ == key;
        lemma_entries_map_at(entries, i);
    }
}

/// A dictionary from normalized phrase-prefix text to phrase status.
pub struct SimplePhraseContext {
    entries: Vec<(String, PhraseStatus)>,
}

impl View for SimplePhraseContext {
    type V = Map<Seq<char>, PhraseStatus>;

    closed spec fn view(&self) -> Map<Seq<char>, PhraseStatus> {
        entries_map(self.entries@)
    }
}

impl SimplePhraseContext {
    #[verifier::type_invariant]
    spec fn wf(self) -> bool {
        &&& keys_unique(self.entries@)
        &&& forall|i: int|
            0 <= i < self.entries@.len() ==> self.entries@[i].1 != PhraseStatus::NotAPhrase
    }

    /// An empty registry.
    pub fn new() -> (registry: Self)
        ensures
            registry@ == Map::<Seq<char>, PhraseStatus>::empty(),
    {
        let registry = SimplePhraseContext { entries: Vec::new() };
        registry
    }

    /// The number of distinct prefix texts recorded so far.
    pub fn phrase_count(&self) -> (count: usize)
        ensures
            count == self@.dom().len(),
    {
        proof {
            use_type_invariant(self);
            lemma_entries_map_dom_len(self.entries@);
        }
        self.entries.len()
    }

    /// Scans for `key`, answering its recorded status.
    fn lookup(&self, key: &String) -> (status: PhraseStatus)
        ensures
            status == status_of(self@, key@),
    {
        proof {
            use_type_invariant(self);
        }
        let mut idx: usize = 0;
        while idx < self.entries.len()
            invariant
                idx <= self.entries.len(),
                keys_unique(self.entries@),
                self@ == entries_map(self.entries@),
                forall|j: int| 0 <= j < idx ==> self.entries@[j].0@ != key@,
            decreases self.entries.len() - idx,
        {
            if self.entries[idx].0 == *key {
                proof {
                    lemma_entries_map_at(self.entries@, idx as int);
                }
                return self.entries[idx].1;
            }
            idx = idx + 1;
        }
        proof {
            lemma_entries_map_contains(self.entries@, key@);
        }
        PhraseStatus::NotAPhrase
    }

    /// Whether `key` is recorded with any status.
    fn contains(&self, key: &String) -> (present: bool)
        ensures
            present == self@.contains_key(key@),
    {
        proof {
            use_type_invariant(self);
            lemma_entries_map_contains(self.entries@, key@);
            if self@.contains_key(key@) {
                let i = choose|i: int|
                    0 <= i < self.entries@.len() && self.entries@[i].0@ == key@;
                lemma_entries_map_at(self.entries@, i);
            }
        }
        let status = self.lookup(key);
        match status {
            PhraseStatus::NotAPhrase => false,
            _ => true,
        }
    }

    /// Appends an entry for a key that is not yet recorded.
    fn push_entry(&mut self, key: String, status: PhraseStatus)
        requires
            !old(self)@.contains_key(key@),
            status != PhraseStatus::NotAPhrase,
        ensures
            final(self)@ == old(self)@.insert(key@, status),
    {
        proof {
            use_type_invariant(&*self);
            lemma_entries_map_contains(self.entries@, key@);
        }
        // The entry list is rebuilt and assigned whole: pushing through a
        // `&mut` borrow of the field would demand an unwind-safety mark that
        // allocation cannot give while the type invariant stands.
        let ghost old_entries = self.entries@;
        let n = self.entries.len();
        let mut grown: Vec<(String, PhraseStatus)> = Vec::new();
        let mut i: usize = 0;
        while i < n
            invariant
                i <= n,
                n == self.entries@.len(),
                self.entries@ == old_entries,
                grown@.len() == i,
                forall|j: int| 0 <= j < i ==> grown@[j] == old_entries[j],
            decreases n - i,
        {
            let entry_key = self.entries[i].0.clone();
            let entry_status = self.entries[i].1;
            grown.push((entry_key, entry_status));
            i = i + 1;
        }
        grown.push((key, status));
        proof {
            assert(grown@.drop_last() =~= old_entries);
            assert(grown@.last() == (key, status));
            assert forall|a: int, b: int| 0 <= a < b < grown@.len() implies grown@[a].0@
                != grown@[b].0@ by {
                assert(grown@[a] == old_entries[a]);
                if b < grown@.len() - 1 {
                    assert(grown@[b] == old_entries[b]);
                } else {
                    assert(grown@[b] == (key, status));
                    assert(!(exists|i: int|
                        0 <= i < old_entries.len() && old_entries[i].0@ == key@));
                }
            }
            assert(keys_unique(grown@));
            assert forall|a: int| 0 <= a < grown@.len() implies grown@[a].1
                != PhraseStatus::NotAPhrase by {
                if a < grown@.len() - 1 {
                    assert(grown@[a] == old_entries[a]);
                } else {
                    assert(grown@[a] == (key, status));
                }
            }
        }
        self.entries = grown;
    }

    /// Registers `phrase`. Its normalized segments' running joins are recorded
    /// as `Incomplete` prefixes and the full join as a `Complete` phrase; on a
    /// conflict with an existing entry the registry is left unchanged and the
    /// conflict is reported.
    #[verifier::loop_isolation(false)]
    pub fn add_phrase(&mut self, phrase: &str) -> (result: Result<(), SimpleContextCodes>)
        ensures
            result == add_phrase_spec(old(self)@, phrase@).0,
            final(self)@ == add_phrase_spec(old(self)@, phrase@).1,
    {
        let ghost m = self@;
        let ghost pv = phrase@;
        proof {
            use_type_invariant(&*self);
            lemma_entries_map_stored(self.entries@);
        }
        let parts = split_segments(phrase);
        let ghost sv = segments(pv);
        proof {
            assert(sv == parts@.map_values(|p: String| p@));
            lemma_segments_from_nonempty(pv, 0, Seq::empty());
        }
        if parts.len() == 0 {
            return Ok(());
        }
        // First pass: find any conflict without touching the registry.
        let mut running: String = parts[0].clone();
        proof {
            assert(sv.take(1) =~= seq![sv[0]]);
            assert(join(sv.take(1)) == sv[0]);
        }
        let mut k: usize = 1;
        while k < parts.len()
            invariant
                1 <= k <= parts.len(),
                sv == parts@.map_values(|p: String| p@),
                self@ == m,
                running@ == join(sv.take(k as int)),
                forall|j: int|
                    1 <= j < k ==> status_of(m, join(sv.take(j))) != PhraseStatus::Complete,
            decreases parts.len() - k,
        {
            if self.lookup(&running) == PhraseStatus::Complete {
                proof {
                    assert(status_of(m, join(segments(pv).take(k as int)))
                        == PhraseStatus::Complete);
                    assert(exists|j: int|
                        1 <= j < segments(pv).len() && status_of(
                            m,
                            join(segments(pv).take(j)),
                        ) == PhraseStatus::Complete);
                }
                return Err(SimpleContextCodes::CompleteVersionExists);
            }
            running.append("_");
            running.append(parts[k].as_str());
            proof {
                reveal_strlit("_");
                assert("_"@ =~= sep());
                lemma_join_take_unfold(sv, k as int);
            }
            k = k + 1;
        }
        proof {
            assert(sv.take(parts.len() as int) =~= sv);
        }
        if self.lookup(&running) == PhraseStatus::Incomplete {
            return Err(SimpleContextCodes::IncompleteVersionExists);
        }
        // Second pass: record the prefixes, then the full phrase.
        let mut k2: usize = 1;
        let mut running2: String = parts[0].clone();
        proof {
            assert(sv.take(1) =~= seq![sv[0]]);
        }
        while k2 < parts.len()
            invariant
                1 <= k2 <= parts.len(),
                sv == parts@.map_values(|p: String| p@),
                running2@ == join(sv.take(k2 as int)),
                self@ == add_prefixes(m, sv, k2 - 1),
            decreases parts.len() - k2,
        {
            if !self.contains(&running2) {
                self.push_entry(running2.clone(), PhraseStatus::Incomplete);
            }
            proof {
                assert(self@ == add_prefix(add_prefixes(m, sv, k2 - 1), join(sv.take(k2 as int))));
            }
            running2.append("_");
            running2.append(parts[k2].as_str());
            proof {
                reveal_strlit("_");
                assert("_"@ =~= sep());
                lemma_join_take_unfold(sv, k2 as int);
            }
            k2 = k2 + 1;
        }
        proof {
            assert(sv.take(parts.len() as int) =~= sv);
        }
        if !self.contains(&running2) {
            self.push_entry(running2, PhraseStatus::Complete);
        } else {
            proof {
                lemma_full_join_not_a_prefix(m, sv);
                assert(self@[running2@] == PhraseStatus::Complete);
                assert(self@.insert(running2@, PhraseStatus::Complete) =~= self@);
            }
        }
        Ok(())
    }
}

/// After the prefix-recording pass, the full join's status is what it was
/// before the pass: every recorded prefix is strictly shorter than the full
/// join, because every segment is non-empty.
proof fn lemma_full_join_not_a_prefix(m: Map<Seq<char>, PhraseStatus>, parts: Seq<Seq<char>>)
    requires
        parts.len() >= 1,
        forall|j: int| 0 <= j < parts.len() ==> parts[j].len() > 0,
    ensures
        status_of(add_prefixes(m, parts, parts.len() - 1), join(parts)) == status_of(
            m,
            join(parts),
        ),
        add_prefixes(m, parts, parts.len() - 1).contains_key(join(parts)) == m.contains_key(
            join(parts),
        ),
{
    lemma_join_lengths(parts);
    assert(parts.take(parts.len() as int) =~= parts);
    assert forall|j: int| 1 <= j <= parts.len() - 1 implies join(parts) != join(
        parts.take(j),
    ) by {
        assert(join(parts.take(j)).len() < join(parts.take(parts.len() as int)).len());
    }
    lemma_add_prefixes_other(m, parts, parts.len() - 1, join(parts));
}

/// The running joins grow strictly with the number of segments joined.
proof fn lemma_join_lengths(parts: Seq<Seq<char>>)
    requires
        forall|j: int| 0 <= j < parts.len() ==> parts[j].len() > 0,
    ensures
        forall|k: int| 1 <= k <= parts.len() ==> #[trigger] join(parts.take(k)).len() >= k,
        forall|j: int, k: int|
            1 <= j < k <= parts.len() ==> #[trigger] join(parts.take(j)).len() < #[trigger] join(
                parts.take(k),
            ).len(),
{
    assert forall|k: int| 1 <= k <= parts.len() implies #[trigger] join(parts.take(k)).len() >= k
        && (k > 1 ==> join(parts.take(k - 1)).len() < join(parts.take(k)).len()) by {
        lemma_join_lengths_step(parts, k);
    }
    assert forall|j: int, k: int| 1 <= j < k <= parts.len() implies #[trigger] join(
        parts.take(j),
    ).len() < #[trigger] join(parts.take(k)).len() by {
        lemma_join_lengths_chain(parts, j, k);
    }
}

proof fn lemma_join_lengths_step(parts: Seq<Seq<char>>, k: int)
    requires
        forall|j: int| 0 <= j < parts.len() ==> parts[j].len() > 0,
        1 <= k <= parts.len(),
    ensures
        join(parts.take(k)).len() >= k,
        k > 1 ==> join(parts.take(k - 1)).len() < join(parts.take(k)).len(),
    decreases k,
{
    if k == 1 {
        assert(parts.take(1) =~= seq![parts[0]]);
        assert(join(parts.take(1)) == parts[0]);
    } else {
        lemma_join_lengths_step(parts, k - 1);
        lemma_join_take_unfold(parts, k - 1);
    }
}

proof fn lemma_join_lengths_chain(parts: Seq<Seq<char>>, j: int, k: int)
    requires
        forall|i: int| 0 <= i < parts.len() ==> parts[i].len() > 0,
        1 <= j < k <= parts.len(),
    ensures
        join(parts.take(j)).len() < join(parts.take(k)).len(),
    decreases k - j,
{
    lemma_join_lengths_step(parts, k);
    if j < k - 1 {
        lemma_join_lengths_chain(parts, j, k - 1);
    }
}

/// Recording prefixes changes no key other than the running joins, and never
/// a key that is strictly longer than every recorded prefix.
proof fn lemma_add_prefixes_other(
    m: Map<Seq<char>, PhraseStatus>,
    parts: Seq<Seq<char>>,
    k: int,
    key: Seq<char>,
)
    requires
        k < parts.len(),
        forall|j: int| 0 <= j < parts.len() ==> parts[j].len() > 0,
        forall|j: int| 1 <= j <= k ==> key != join(parts.take(j)),
    ensures
        status_of(add_prefixes(m, parts, k), key) == status_of(m, key),
        add_prefixes(m, parts, k).contains_key(key) == m.contains_key(key),
    decreases k,
{
    if k > 0 {
        lemma_add_prefixes_other(m, parts, k - 1, key);
    }
}

impl PhraseContext for SimplePhraseContext {
    open spec fn phrase_map(&self) -> Map<Seq<char>, PhraseStatus> {
        self.view()
    }

    fn get_phrase_status(&self, s: &str) -> (status: PhraseStatus) {
        let key = String::from_str(s);
        self.lookup(&key)
    }
}

/// What the prefix-recording pass makes of any key: an existing status is kept,
/// a running join of up to `k` segments becomes `Incomplete`, anything else
/// stays unknown.
proof fn lemma_add_prefixes_status(
    m: Map<Seq<char>, PhraseStatus>,
    parts: Seq<Seq<char>>,
    k: int,
    key: Seq<char>,
)
    requires
        k < parts.len(),
    ensures
        status_of(add_prefixes(m, parts, k), key) == if m.contains_key(key) {
            m[key]
        } else if exists|j: int| 1 <= j <= k && key == join(parts.take(j)) {
            PhraseStatus::Incomplete
        } else {
            PhraseStatus::NotAPhrase
        },
        add_prefixes(m, parts, k).contains_key(key) == (m.contains_key(key) || exists|j: int|
            1 <= j <= k && key == join(parts.take(j))),
    decreases k,
{
    if k > 0 {
        lemma_add_prefixes_status(m, parts, k - 1, key);
        if key == join(parts.take(k)) {
            assert(exists|j: int| 1 <= j <= k && key == join(parts.take(j)));
        } else {
            if exists|j: int| 1 <= j <= k && key == join(parts.take(j)) {
                let j = choose|j: int| 1 <= j <= k && key == join(parts.take(j));
                assert(1 <= j <= k - 1 && key == join(parts.take(j)));
            }
        }
    }
}

/// Registering a text with no non-empty segments succeeds and records nothing.
pub proof fn lemma_no_segments_no_op(m: Map<Seq<char>, PhraseStatus>, s: Seq<char>)
    requires
        segments(s).len() == 0,
    ensures
        add_phrase_spec(m, s).0 == Ok::<(), SimpleContextCodes>(()),
        add_phrase_spec(m, s).1 == m,
{
}

/// A successfully registered single-segment phrase looks up as `Complete`
/// afterwards.
pub proof fn lemma_single_segment_complete(m: Map<Seq<char>, PhraseStatus>, s: Seq<char>)
    requires
        segments(s).len() == 1,
        add_phrase_spec(m, s).0 == Ok::<(), SimpleContextCodes>(()),
    ensures
        status_of(add_phrase_spec(m, s).1, join(segments(s))) == PhraseStatus::Complete,
{
}

/// Registering a phrase of segments `[s1 .. sn]` against an empty registry
/// succeeds; afterwards every proper running join `s1_.._sk` (k < n) is
/// `Incomplete`, the full join is `Complete`, and every other text is
/// `NotAPhrase`.
pub proof fn lemma_registration_statuses(s: Seq<char>)
    requires
        segments(s).len() >= 1,
    ensures
        add_phrase_spec(Map::empty(), s).0 == Ok::<(), SimpleContextCodes>(()),
        forall|k: int|
            1 <= k < segments(s).len() ==> status_of(
                add_phrase_spec(Map::empty(), s).1,
                #[trigger] join(segments(s).take(k)),
            ) == PhraseStatus::Incomplete,
        status_of(add_phrase_spec(Map::empty(), s).1, join(segments(s)))
            == PhraseStatus::Complete,
        forall|t: Seq<char>|
            #[trigger] status_of(add_phrase_spec(Map::empty(), s).1, t)
                != PhraseStatus::NotAPhrase ==> exists|k: int|
                1 <= k <= segments(s).len() && t == join(segments(s).take(k)),
{
    let parts = segments(s);
    let n = parts.len() as int;
    let m0 = Map::<Seq<char>, PhraseStatus>::empty();
    lemma_segments_from_nonempty(s, 0, Seq::empty());
    lemma_join_lengths(parts);
    assert(parts.take(n) =~= parts);
    assert forall|k: int| 1 <= k < n implies status_of(
        m0,
        join(parts.take(k)),
    ) != PhraseStatus::Complete by {}
    let m1 = add_prefixes(m0, parts, n - 1);
    let m2 = m1.insert(join(parts), PhraseStatus::Complete);
    assert(add_phrase_spec(m0, s).1 == m2);
    assert forall|k: int| 1 <= k < n implies status_of(m2, #[trigger] join(parts.take(k)))
        == PhraseStatus::Incomplete by {
        lemma_add_prefixes_status(m0, parts, n - 1, join(parts.take(k)));
        assert(join(parts.take(k)).len() < join(parts.take(n)).len());
        assert(join(parts.take(k)) != join(parts));
    }
    assert forall|t: Seq<char>| #[trigger] status_of(m2, t) != PhraseStatus::NotAPhrase implies
        exists|k: int| 1 <= k <= n && t == join(parts.take(k)) by {
        if t == join(parts) {
            assert(1 <= n <= n && t == join(parts.take(n)));
        } else {
            lemma_add_prefixes_status(m0, parts, n - 1, t);
        }
    }
}

/// Registering a phrase and then a strict segment-extension of it fails with
/// `CompleteVersionExists` and leaves the registry unchanged: the extension's
/// running join at the first phrase's length is already a complete phrase.
pub proof fn lemma_extension_after_complete(s: Seq<char>, t: Seq<char>)
    requires
        segments(s).len() >= 1,
        segments(t).len() > segments(s).len(),
        segments(t).take(segments(s).len() as int) == segments(s),
    ensures
        add_phrase_spec(Map::empty(), s).0 == Ok::<(), SimpleContextCodes>(()),
        add_phrase_spec(add_phrase_spec(Map::empty(), s).1, t).0 == Err::<
            (),
            SimpleContextCodes,
        >(SimpleContextCodes::CompleteVersionExists),
        add_phrase_spec(add_phrase_spec(Map::empty(), s).1, t).1 == add_phrase_spec(
            Map::empty(),
            s,
        ).1,
{
    lemma_registration_statuses(s);
    let m1 = add_phrase_spec(Map::empty(), s).1;
    let ns = segments(s).len() as int;
    assert(segments(s).take(ns) =~= segments(s));
    assert(join(segments(t).take(ns)) == join(segments(s)));
    assert(status_of(m1, join(segments(t).take(ns))) == PhraseStatus::Complete);
    assert(exists|k: int|
        1 <= k < segments(t).len() && status_of(m1, join(segments(t).take(k)))
            == PhraseStatus::Complete);
}

/// Registering a phrase and then a strict segment-prefix of it fails with
/// `IncompleteVersionExists` and leaves the registry unchanged: the shorter
/// phrase's full join is already recorded as a prefix that must continue.
pub proof fn lemma_prefix_after_incomplete(s: Seq<char>, t: Seq<char>)
    requires
        segments(s).len() >= 1,
        segments(t).len() > segments(s).len(),
        segments(t).take(segments(s).len() as int) == segments(s),
    ensures
        add_phrase_spec(Map::empty(), t).0 == Ok::<(), SimpleContextCodes>(()),
        add_phrase_spec(add_phrase_spec(Map::empty(), t).1, s).0 == Err::<
            (),
            SimpleContextCodes,
        >(SimpleContextCodes::IncompleteVersionExists),
        add_phrase_spec(add_phrase_spec(Map::empty(), t).1, s).1 == add_phrase_spec(
            Map::empty(),
            t,
        ).1,
{
    lemma_registration_statuses(t);
    let m1 = add_phrase_spec(Map::empty(), t).1;
    let ns = segments(s).len() as int;
    let nt = segments(t).len() as int;
    lemma_segments_from_nonempty(t, 0, Seq::empty());
    lemma_join_lengths(segments(t));
    assert(segments(s).take(ns) =~= segments(s));
    // Every running join of `s` is a running join of `t` over fewer than all
    // of `t`'s segments, so it is `Incomplete` in `m1`, never `Complete`.
    assert forall|k: int| 1 <= k <= ns implies status_of(
        m1,
        #[trigger] join(segments(s).take(k)),
    ) == PhraseStatus::Incomplete by {
        assert(segments(s).take(k) =~= segments(t).take(k));
        assert(status_of(m1, join(segments(t).take(k))) == PhraseStatus::Incomplete);
    }
    assert(join(segments(s)) == join(segments(s).take(ns)));
    assert(status_of(m1, join(segments(s))) == PhraseStatus::Incomplete);
    assert forall|k: int| 1 <= k < ns implies status_of(
        m1,
        #[trigger] join(segments(s).take(k)),
    ) != PhraseStatus::Complete by {}
}

} // verus!
