//! Model of an audio file's embedded comment block: an association list from
//! tag keys to the list of values seen for each key, with keys unique and
//! every key holding at least one value.  The surrounding program fills one
//! from the container it read; tests build one directly.

use vstd::prelude::*;

verus! {

/// One file's tag block.
pub struct TagBlock {
    pub entries: Vec<(String, Vec<String>)>,
}

/// The values recorded under `key`: those of the first entry carrying it.
pub open spec fn spec_values(entries: Seq<(String, Vec<String>)>, key: Seq<char>) -> Option<
    Seq<String>,
>
    decreases entries.len(),
{
    if entries.len() == 0 {
        None
    } else if entries[0].0@ == key {
        Some(entries[0].1@)
    } else {
        spec_values(entries.skip(1), key)
    }
}

/// The first value recorded under `key`, if the key is present and holds one.
pub open spec fn spec_first(entries: Seq<(String, Vec<String>)>, key: Seq<char>) -> Option<
    Seq<char>,
> {
    match spec_values(entries, key) {
        Some(vs) => if vs.len() > 0 {
            Some(vs[0]@)
        } else {
            None
        },
        None => None,
    }
}

/// The first value under `key`, or `dflt` when the key is absent or empty.
pub open spec fn spec_first_or(
    entries: Seq<(String, Vec<String>)>,
    key: Seq<char>,
    dflt: Seq<char>,
) -> Seq<char> {
    match spec_first(entries, key) {
        Some(v) => v,
        None => dflt,
    }
}

/// View of an optional owned string.
pub open spec fn opt_text(o: Option<String>) -> Option<Seq<char>> {
    match o {
        Some(s) => Some(s@),
        None => None,
    }
}

/// View of an optional list of owned strings.
pub open spec fn opt_list(o: Option<Vec<String>>) -> Option<Seq<String>> {
    match o {
        Some(v) => Some(v@),
        None => None,
    }
}

proof fn lemma_spec_values_skip(entries: Seq<(String, Vec<String>)>, key: Seq<char>, i: int)
    requires
        0 <= i < entries.len(),
        entries[i].0@ != key,
        spec_values(entries, key) == spec_values(entries.skip(i), key),
    ensures
        spec_values(entries, key) == spec_values(entries.skip(i + 1), key),
{
    assert(entries.skip(i).len() > 0);
    assert(entries.skip(i)[0] == entries[i]);
    assert(entries.skip(i).skip(1) =~= entries.skip(i + 1));
}

impl TagBlock {
    /// Keys are pairwise distinct and every key holds at least one value.
    pub open spec fn wf(self) -> bool {
        &&& forall|i: int, j: int|
            0 <= i < j < self.entries@.len() ==> self.entries@[i].0@ != self.entries@[j].0@
        &&& forall|i: int|
            0 <= i < self.entries@.len() ==> (#[trigger] self.entries@[i]).1@.len() > 0
    }

    /// An empty block.
    pub fn new() -> (block: TagBlock)
        ensures
            block.wf(),
            block.entries@.len() == 0,
    {
        TagBlock { entries: Vec::new() }
    }

    /// Records one comment: appends `value` to the entry for `key`, creating
    /// the entry when the key is new.
    pub fn add(&mut self, key: String, value: String)
        requires
            old(self).wf(),
        ensures
            final(self).wf(),
            forall|k: Seq<char>|
                #[trigger] spec_values(final(self).entries@, k) == if k == key@ {
                    match spec_values(old(self).entries@, k) {
                        Some(vs) => Some(vs.push(value)),
                        None => Some(seq![value]),
                    }
                } else {
                    spec_values(old(self).entries@, k)
                },
    {
        let ghost old_entries = self.entries@;
        let n = self.entries.len();
        let mut i: usize = 0;
        while i < n
            invariant
                0 <= i <= n,
                n == self.entries@.len(),
                self.entries@ == old_entries,
                old_entries == old(self).entries@,
                old(self).wf(),
                forall|j: int| 0 <= j < i ==> old_entries[j].0@ != key@,
            decreases n - i,
        {
            if self.entries[i].0 == key {
                let pair = &mut self.entries[i];
                assert(pair.0@ == key@);
                pair.1.push(value);
                proof {
                    let new_entries = self.entries@;
                    assert(old_entries == old(self).entries@);
                    assert(new_entries[i as int].1@ == old_entries[i as int].1@.push(value));
                    assert(forall|j: int|
                        0 <= j < old_entries.len() && j != i ==> new_entries[j] == old_entries[j]);
                    assert forall|j: int|
                        0 <= j < new_entries.len() implies (#[trigger] new_entries[j]).0@
                        == old_entries[j].0@ by {
                        assert(old(self).entries@[j].1@.len() > 0);
                    }
                    assert forall|j: int|
                        0 <= j < new_entries.len() implies (#[trigger] new_entries[j]).1@.len()
                        > 0 by {
                        assert(old(self).entries@[j].1@.len() > 0);
                    }
                    lemma_values_update(old_entries, new_entries, i as int, key@, value);
                }
                return ;
            }
            i = i + 1;
        }
        let mut values: Vec<String> = Vec::new();
        values.push(value);
        self.entries.push((key, values));
        proof {
            let new_entries = self.entries@;
            assert(new_entries.len() == old_entries.len() + 1);
            assert(forall|j: int| 0 <= j < old_entries.len() ==> new_entries[j] == old_entries[j]);
            assert(old_entries == old(self).entries@);
            assert(new_entries[old_entries.len() as int].0@ == key@);
            assert(new_entries[old_entries.len() as int].1@ =~= seq![value]);
            assert forall|j: int|
                0 <= j < new_entries.len() implies (#[trigger] new_entries[j]).1@.len() > 0 by {
                if j < old_entries.len() {
                    assert(old(self).entries@[j].1@.len() > 0);
                }
            }
            assert forall|k: Seq<char>|
                #[trigger] spec_values(new_entries, k) == if k == key@ {
                    match spec_values(old_entries, k) {
                        Some(vs) => Some(vs.push(value)),
                        None => Some(seq![value]),
                    }
                } else {
                    spec_values(old_entries, k)
                } by {
                lemma_values_push_new(old_entries, new_entries, key@, value, k);
            }
        }
    }

    /// The index of the entry for `key`, if the key is present.
    fn lookup(&self, key: &str) -> (r: Option<usize>)
        ensures
            match r {
                Some(i) => i < self.entries@.len() && self.entries@[i as int].0@ == key@
                    && spec_values(self.entries@, key@) == Some(self.entries@[i as int].1@),
                None => spec_values(self.entries@, key@) is None,
            },
    {
        let key_string = String::from_str(key);
        let n = self.entries.len();
        let mut i: usize = 0;
        proof {
            assert(self.entries@.skip(0) =~= self.entries@);
        }
        while i < n
            invariant
                0 <= i <= n,
                n == self.entries@.len(),
                key_string@ == key@,
                spec_values(self.entries@, key@) == spec_values(
                    self.entries@.skip(i as int),
                    key@,
                ),
            decreases n - i,
        {
            if self.entries[i].0 == key_string {
                assert(self.entries@.skip(i as int)[0] == self.entries@[i as int]);
                return Some(i);
            }
            proof {
                lemma_spec_values_skip(self.entries@, key@, i as int);
            }
            i = i + 1;
        }
        assert(self.entries@.skip(i as int) =~= Seq::<(String, Vec<String>)>::empty());
        None
    }

    /// The first value under `key`, cloned, if the key is present.
    pub fn first_value(&self, key: &str) -> (r: Option<String>)
        requires
            self.wf(),
        ensures
            opt_text(r) == spec_first(self.entries@, key@),
    {
        match self.lookup(key) {
            Some(i) => {
                let vs = &self.entries[i].1;
                assert(vs@.len() > 0);
                Some(vs[0].clone())
            },
            None => None,
        }
    }

    /// The first value under `key`, cloned, or `dflt` when the key is absent.
    pub fn first_value_or(&self, key: &str, dflt: &str) -> (r: String)
        requires
            self.wf(),
        ensures
            r@ == spec_first_or(self.entries@, key@, dflt@),
    {
        match self.first_value(key) {
            Some(v) => v,
            None => String::from_str(dflt),
        }
    }

    /// All values under `key`, cloned, if the key is present.
    pub fn values_cloned(&self, key: &str) -> (r: Option<Vec<String>>)
        ensures
            opt_list(r) == spec_values(self.entries@, key@),
    {
        match self.lookup(key) {
            Some(i) => {
                let vs = &self.entries[i].1;
                let mut out: Vec<String> = Vec::new();
                let mut j: usize = 0;
                while j < vs.len()
                    invariant
                        0 <= j <= vs@.len(),
                        out@ =~= vs@.take(j as int),
                    decreases vs@.len() - j,
                {
                    out.push(vs[j].clone());
                    assert(out@ =~= vs@.take(j + 1));
                    j = j + 1;
                }
                assert(out@ =~= vs@);
                Some(out)
            },
            None => None,
        }
    }
}

proof fn lemma_values_update(
    before: Seq<(String, Vec<String>)>,
    after: Seq<(String, Vec<String>)>,
    i: int,
    key: Seq<char>,
    value: String,
)
    requires
        0 <= i < before.len(),
        after.len() == before.len(),
        before[i].0@ == key,
        after[i].0@ == key,
        after[i].1@ == before[i].1@.push(value),
        forall|j: int| 0 <= j < before.len() && j != i ==> after[j] == before[j],
        forall|j: int| 0 <= j < i ==> before[j].0@ != key,
    ensures
        forall|k: Seq<char>|
            #[trigger] spec_values(after, k) == if k == key {
                match spec_values(before, k) {
                    Some(vs) => Some(vs.push(value)),
                    None => Some(seq![value]),
                }
            } else {
                spec_values(before, k)
            },
    decreases before.len(),
{
    assert forall|k: Seq<char>|
        #[trigger] spec_values(after, k) == if k == key {
            match spec_values(before, k) {
                Some(vs) => Some(vs.push(value)),
                None => Some(seq![value]),
            }
        } else {
            spec_values(before, k)
        } by {
        lemma_values_update_one(before, after, i, key, value, k);
    }
}

proof fn lemma_values_update_one(
    before: Seq<(String, Vec<String>)>,
    after: Seq<(String, Vec<String>)>,
    i: int,
    key: Seq<char>,
    value: String,
    k: Seq<char>,
)
    requires
        0 <= i < before.len(),
        after.len() == before.len(),
        before[i].0@ == key,
        after[i].0@ == key,
        after[i].1@ == before[i].1@.push(value),
        forall|j: int| 0 <= j < before.len() && j != i ==> after[j] == before[j],
        forall|j: int| 0 <= j < i ==> before[j].0@ != key,
    ensures
        spec_values(after, k) == if k == key {
            match spec_values(before, k) {
                Some(vs) => Some(vs.push(value)),
                None => Some(seq![value]),
            }
        } else {
            spec_values(before, k)
        },
    decreases before.len(),
{
    if i == 0 {
        if k == key {
        } else {
            assert(before[0].0@ != k);
            assert(after[0].0@ != k);
            assert(before.skip(1) =~= after.skip(1));
        }
    } else {
        assert(before[0] == after[0]);
        if before[0].0@ == k {
        } else {
            lemma_values_update_one(before.skip(1), after.skip(1), i - 1, key, value, k);
            assert(before.skip(1)[i - 1] == before[i]);
            assert(after.skip(1)[i - 1] == after[i]);
        }
    }
}

proof fn lemma_values_push_new(
    before: Seq<(String, Vec<String>)>,
    after: Seq<(String, Vec<String>)>,
    key: Seq<char>,
    value: String,
    k: Seq<char>,
)
    requires
        after.len() == before.len() + 1,
        forall|j: int| 0 <= j < before.len() ==> after[j] == before[j],
        after[before.len() as int].0@ == key,
        after[before.len() as int].1@ == seq![value],
        forall|j: int| 0 <= j < before.len() ==> before[j].0@ != key,
    ensures
        spec_values(after, k) == if k == key {
            match spec_values(before, k) {
                Some(vs) => Some(vs.push(value)),
                None => Some(seq![value]),
            }
        } else {
            spec_values(before, k)
        },
    decreases before.len(),
{
    if before.len() == 0 {
        if k == key {
            assert(after[0].0@ == key);
            assert(after[0].1@ =~= seq![value]);
        } else {
            assert(after[0].0@ != k);
            assert(after.skip(1) =~= Seq::<(String, Vec<String>)>::empty());
        }
    } else {
        if before[0].0@ == k {
            assert(after[0] == before[0]);
        } else {
            assert(after[0] == before[0]);
            lemma_values_push_new(before.skip(1), after.skip(1), key, value, k);
            assert(after.skip(1)[before.len() - 1] == after[before.len() as int]);
            assert(forall|j: int|
                0 <= j < before.skip(1).len() ==> after.skip(1)[j] == #[trigger] before.skip(
                    1,
                )[j]);
        }
    }
}

} // verus!
