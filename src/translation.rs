//! The table that maps canonical English phrases to their translations.
use vstd::prelude::*;

verus! {

/// Phrase translations. A phrase stored twice translates by its first entry.
pub struct TranslationTable {
    entries: Vec<(String, String)>,
}

pub open spec fn pair_view(e: (String, String)) -> (Seq<char>, Seq<char>) {
    (e.0@, e.1@)
}

/// What `s` translates to by the entries from `i` on: the value of the first entry stored
/// under it, or `s` itself.
pub open spec fn lookup_from(e: Seq<(Seq<char>, Seq<char>)>, s: Seq<char>, i: int) -> Seq<char>
    decreases e.len() - i,
{
    if i < 0 || i >= e.len() {
        s
    } else if e[i].0 == s {
        e[i].1
    } else {
        lookup_from(e, s, i + 1)
    }
}

pub open spec fn translated(e: Seq<(Seq<char>, Seq<char>)>, s: Seq<char>) -> Seq<char> {
    lookup_from(e, s, 0)
}

impl View for TranslationTable {
    type V = Seq<(Seq<char>, Seq<char>)>;

    closed spec fn view(&self) -> Seq<(Seq<char>, Seq<char>)> {
        self.entries@.map_values(|e: (String, String)| pair_view(e))
    }
}

proof fn lemma_lookup_miss(e: Seq<(Seq<char>, Seq<char>)>, s: Seq<char>, i: int)
    requires
        0 <= i <= e.len(),
        forall|j: int| i <= j < e.len() ==> #[trigger] e[j].0 != s,
    ensures
        lookup_from(e, s, i) == s,
    decreases e.len() - i,
{
    if i < e.len() {
        lemma_lookup_miss(e, s, i + 1);
    }
}

/// Entries before `k` that miss `s` do not change what `s` translates to from `i` on.
proof fn lemma_lookup_skip(e: Seq<(Seq<char>, Seq<char>)>, s: Seq<char>, i: int, k: int)
    requires
        0 <= i <= k <= e.len(),
        forall|j: int| i <= j < k ==> #[trigger] e[j].0 != s,
    ensures
        lookup_from(e, s, i) == lookup_from(e, s, k),
    decreases k - i,
{
    if i < k {
        lemma_lookup_skip(e, s, i + 1, k);
    }
}

/// Two tables that agree from `i` on, except where neither holds `s`, translate `s` alike.
proof fn lemma_lookup_same(
    e: Seq<(Seq<char>, Seq<char>)>,
    f: Seq<(Seq<char>, Seq<char>)>,
    s: Seq<char>,
    i: int,
)
    requires
        0 <= i <= e.len(),
        e.len() <= f.len(),
        forall|j: int| i <= j < e.len() ==> e[j] == f[j] || (e[j].0 != s && f[j].0 != s),
        forall|j: int| e.len() <= j < f.len() ==> #[trigger] f[j].0 != s,
    ensures
        lookup_from(e, s, i) == lookup_from(f, s, i),
    decreases e.len() - i,
{
    if i < e.len() {
        lemma_lookup_same(e, f, s, i + 1);
    } else {
        lemma_lookup_miss(f, s, i);
    }
}

impl TranslationTable {
    /// An empty table: every phrase translates to itself.
    pub fn new() -> (r: TranslationTable)
        ensures
            r@ == Seq::<(Seq<char>, Seq<char>)>::empty(),
    {
        let r = TranslationTable { entries: Vec::new() };
        assert(r@ =~= Seq::<(Seq<char>, Seq<char>)>::empty());
        r
    }

    fn index_of(&self, key: &String) -> (r: Option<usize>)
        ensures
            match r {
                Some(i) => i < self@.len() && self@[i as int].0 == key@ && forall|j: int|
                    0 <= j < i ==> #[trigger] self@[j].0 != key@,
                None => forall|i: int| 0 <= i < self@.len() ==> #[trigger] self@[i].0 != key@,
            },
    {
        let mut i: usize = 0;
        while i < self.entries.len()
            invariant
                i <= self@.len(),
                self@.len() == self.entries@.len(),
                forall|j: int| 0 <= j < i ==> #[trigger] self@[j].0 != key@,
            decreases self@.len() - i,
        {
            assert(self@[i as int] == pair_view(self.entries@[i as int]));
            if self.entries[i].0 == *key {
                return Some(i);
            }
            i = i + 1;
        }
        None
    }

    /// Stores `value` under `key`, in place of what was stored under it.
    pub fn insert(&mut self, key: String, value: String)
        ensures
            forall|s: Seq<char>|
                #[trigger] translated(final(self)@, s) == if s == key@ {
                    value@
                } else {
                    translated(old(self)@, s)
                },
    {
        let ghost old_v = self@;
        match self.index_of(&key) {
            Some(i) => {
                self.entries.set(i, (key, value));
                proof {
                    assert(self@ =~= old_v.update(i as int, (key@, value@)));
                    assert forall|s: Seq<char>|
                        #[trigger] translated(self@, s) == if s == key@ {
                            value@
                        } else {
                            translated(old_v, s)
                        } by {
                        if s == key@ {
                            lemma_lookup_skip(self@, s, 0, i as int);
                        } else {
                            lemma_lookup_same(old_v, self@, s, 0);
                        }
                    }
                }
            },
            None => {
                self.entries.push((key, value));
                proof {
                    assert(self@ =~= old_v.push((key@, value@)));
                    assert forall|s: Seq<char>|
                        #[trigger] translated(self@, s) == if s == key@ {
                            value@
                        } else {
                            translated(old_v, s)
                        } by {
                        if s == key@ {
                            lemma_lookup_skip(self@, s, 0, old_v.len() as int);
                        } else {
                            lemma_lookup_same(old_v, self@, s, 0);
                        }
                    }
                }
            },
        }
    }
}

/// The translation of `needle_string`: the value stored under it, or the phrase itself when
/// the table holds none.
pub fn translate_string(needle_string: String, haystack_kv: &TranslationTable) -> (r: String)
    ensures
        r@ == translated(haystack_kv@, needle_string@),
{
    match haystack_kv.index_of(&needle_string) {
        Some(i) => {
            proof {
                lemma_lookup_skip(haystack_kv@, needle_string@, 0, i as int);
            }
            assert(haystack_kv@[i as int] == pair_view(haystack_kv.entries@[i as int]));
            haystack_kv.entries[i].1.clone()
        },
        None => {
            proof {
                lemma_lookup_miss(haystack_kv@, needle_string@, 0);
            }
            needle_string
        },
    }
}

} // verus!
