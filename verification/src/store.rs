//! The table of the server: text keys, text values, and nothing else.
//!
//! A `DbControl` is the table itself. Whoever serves several connections
//! at once keeps one table behind one lock and takes the lock for each
//! single operation; every operation here is a step from one table to the
//! next, so any interleaving of such steps leaves a table that some
//! sequence of them produces.

use crate::error::KvsError;
use crate::json::{json_bytes, json_pairs, json_table};
use vstd::prelude::*;

verus! {

/// The table that a list of pairs builds up when they are installed one
/// after the other: a later pair replaces an earlier one with the same key.
pub open spec fn pairs_table(pairs: Seq<(String, String)>) -> Map<Seq<char>, Seq<char>>
    decreases pairs.len(),
{
    if pairs.len() == 0 {
        Map::empty()
    } else {
        pairs_table(pairs.drop_last()).insert(pairs.last().0@, pairs.last().1@)
    }
}

/// Whether no key stands twice in a list of pairs.
pub open spec fn distinct_keys(pairs: Seq<(String, String)>) -> bool {
    forall|i: int, j: int| 0 <= i < j < pairs.len() ==> pairs[i].0@ != pairs[j].0@
}

/// A key is in the table of a list of pairs exactly if some pair has it.
proof fn lemma_pairs_table_dom(pairs: Seq<(String, String)>, k: Seq<char>)
    ensures
        pairs_table(pairs).contains_key(k) <==> exists|i: int|
            0 <= i < pairs.len() && (#[trigger] pairs[i]).0@ == k,
    decreases pairs.len(),
{
    if pairs.len() > 0 {
        let front = pairs.drop_last();
        lemma_pairs_table_dom(front, k);
        if exists|i: int| 0 <= i < pairs.len() && (#[trigger] pairs[i]).0@ == k {
            let i = choose|i: int| 0 <= i < pairs.len() && (#[trigger] pairs[i]).0@ == k;
            if i < front.len() {
                assert(front[i].0@ == k);
            }
        }
    }
}

/// Where no key stands twice, the table maps each pair's key to that
/// pair's value.
proof fn lemma_pairs_table_value(pairs: Seq<(String, String)>, i: int)
    requires
        distinct_keys(pairs),
        0 <= i < pairs.len(),
    ensures
        pairs_table(pairs).contains_key(pairs[i].0@),
        pairs_table(pairs)[pairs[i].0@] == pairs[i].1@,
    decreases pairs.len(),
{
    if i < pairs.len() - 1 {
        lemma_pairs_table_value(pairs.drop_last(), i);
    }
}

/// Taking one pair out of a list without doubles takes its key out of the
/// table and leaves the rest.
proof fn lemma_pairs_table_remove(pairs: Seq<(String, String)>, i: int)
    requires
        distinct_keys(pairs),
        0 <= i < pairs.len(),
    ensures
        distinct_keys(pairs.remove(i)),
        pairs_table(pairs.remove(i)) == pairs_table(pairs).remove(pairs[i].0@),
{
    let rest = pairs.remove(i);
    let k = pairs[i].0@;
    assert forall|x: Seq<char>|
        pairs_table(rest).contains_key(x) <==> #[trigger] pairs_table(pairs).remove(
            k,
        ).contains_key(x) by {
        lemma_pairs_table_dom(rest, x);
        lemma_pairs_table_dom(pairs, x);
        if pairs_table(rest).contains_key(x) {
            let a = choose|a: int| 0 <= a < rest.len() && (#[trigger] rest[a]).0@ == x;
            let a2 = if a < i { a } else { a + 1 };
            assert(rest[a] == pairs[a2]);
            assert(pairs[a2].0@ == x);
            assert(x != k) by {
                if a2 < i {
                    assert(pairs[a2].0@ != pairs[i].0@);
                } else {
                    assert(pairs[i].0@ != pairs[a2].0@);
                }
            }
        }
        if pairs_table(pairs).remove(k).contains_key(x) {
            let a2 = choose|a: int| 0 <= a < pairs.len() && (#[trigger] pairs[a]).0@ == x;
            let a = if a2 < i { a2 } else { a2 - 1 };
            assert(rest[a] == pairs[a2]);
            assert(rest[a].0@ == x);
        }
    }
    assert forall|x: Seq<char>| pairs_table(rest).contains_key(x) implies #[trigger] pairs_table(
        rest,
    )[x] == pairs_table(pairs).remove(k)[x] by {
        lemma_pairs_table_dom(rest, x);
        let a = choose|a: int| 0 <= a < rest.len() && (#[trigger] rest[a]).0@ == x;
        let a2 = if a < i { a } else { a + 1 };
        assert(rest[a] == pairs[a2]);
        lemma_pairs_table_value(rest, a);
        lemma_pairs_table_value(pairs, a2);
    }
}

/// The table of a key-value server.
#[derive(Debug)]
pub struct DbControl {
    entries: Vec<(String, String)>,
}

impl View for DbControl {
    type V = Map<Seq<char>, Seq<char>>;

    /// The table as a map from keys to values.
    closed spec fn view(&self) -> Map<Seq<char>, Seq<char>> {
        pairs_table(self.entries@)
    }
}

impl DbControl {
    #[verifier::type_invariant]
    spec fn no_key_twice(self) -> bool {
        distinct_keys(self.entries@)
    }

    /// The place of `key` among the entries, if it has one.
    fn find(&self, key: &String) -> (r: Option<usize>)
        ensures
            match r {
                Some(i) => i < self.entries@.len() && self.entries@[i as int].0@ == key@,
                None => forall|i: int|
                    0 <= i < self.entries@.len() ==> (#[trigger] self.entries@[i]).0@ != key@,
            },
    {
        let mut i: usize = 0;
        while i < self.entries.len()
            invariant
                i <= self.entries@.len(),
                forall|j: int| 0 <= j < i ==> (#[trigger] self.entries@[j]).0@ != key@,
            decreases self.entries@.len() - i,
        {
            if self.entries[i].0 == *key {
                return Some(i);
            }
            i = i + 1;
        }
        None
    }

    /// The value under `key`, if the table has one.
    pub fn get(&self, key: &String) -> (r: Option<String>)
        ensures
            match r {
                Some(v) => self@.contains_key(key@) && v@ == self@[key@],
                None => !self@.contains_key(key@),
            },
    {
        proof {
            use_type_invariant(self);
            lemma_pairs_table_dom(self.entries@, key@);
        }
        match self.find(key) {
            Some(i) => {
                proof {
                    lemma_pairs_table_value(self.entries@, i as int);
                }
                Some(self.entries[i].1.clone())
            },
            None => None,
        }
    }

    /// Installs `value` under `key` and returns the value that was there
    /// before, if there was one.
    pub fn set(&mut self, key: String, value: String) -> (r: Option<String>)
        ensures
            final(self)@ == old(self)@.insert(key@, value@),
            match r {
                Some(v) => old(self)@.contains_key(key@) && v@ == old(self)@[key@],
                None => !old(self)@.contains_key(key@),
            },
    {
        proof {
            use_type_invariant(&*self);
            lemma_pairs_table_dom(self.entries@, key@);
        }
        let found = self.find(&key);
        let mut entries = Vec::new();
        std::mem::swap(&mut entries, &mut self.entries);
        let ghost before = entries@;
        let previous = match found {
            Some(i) => {
                proof {
                    lemma_pairs_table_value(before, i as int);
                    lemma_pairs_table_remove(before, i as int);
                }
                let taken = entries.remove(i);
                Some(taken.1)
            },
            None => None,
        };
        let ghost rest = entries@;
        entries.push((key, value));
        proof {
            assert(entries@.drop_last() =~= rest);
        }
        self.entries = entries;
        previous
    }

    /// Removes `key` and returns the value that was under it, if there was
    /// one. Where the table has no such key, nothing changes.
    pub fn del(&mut self, key: &String) -> (r: Option<String>)
        ensures
            final(self)@ == old(self)@.remove(key@),
            match r {
                Some(v) => old(self)@.contains_key(key@) && v@ == old(self)@[key@],
                None => !old(self)@.contains_key(key@) && final(self)@ == old(self)@,
            },
    {
        proof {
            use_type_invariant(&*self);
            lemma_pairs_table_dom(self.entries@, key@);
        }
        match self.find(key) {
            Some(i) => {
                let mut entries = Vec::new();
                std::mem::swap(&mut entries, &mut self.entries);
                proof {
                    lemma_pairs_table_value(entries@, i as int);
                    lemma_pairs_table_remove(entries@, i as int);
                }
                let taken = entries.remove(i);
                self.entries = entries;
                Some(taken.1)
            },
            None => None,
        }
    }

    /// The table that a loaded snapshot gives: its pairs, installed in
    /// order, where loading succeeded; otherwise an empty table with room
    /// for a few entries.
    pub fn restore(loaded: Option<Vec<(String, String)>>) -> (db: DbControl)
        ensures
            db@ == (match loaded {
                Some(pairs) => pairs_table(pairs@),
                None => Map::empty(),
            }),
    {
        let mut db = DbControl { entries: Vec::with_capacity(10) };
        if let Some(pairs) = loaded {
            let mut i: usize = 0;
            while i < pairs.len()
                invariant
                    i <= pairs@.len(),
                    db@ == pairs_table(pairs@.take(i as int)),
                decreases pairs@.len() - i,
            {
                proof {
                    assert(pairs@.take(i + 1).drop_last() =~= pairs@.take(i as int));
                }
                db.set(pairs[i].0.clone(), pairs[i].1.clone());
                i = i + 1;
            }
            proof {
                assert(pairs@.take(pairs@.len() as int) =~= pairs@);
            }
        }
        db
    }

    /// The table at start-up. `snapshot` is what the snapshot file held, or
    /// `None` where it could not be read. Where the bytes are a snapshot,
    /// the table is the one they describe; in every other case it is empty.
    pub fn new(snapshot: Option<&[u8]>) -> (db: DbControl)
        ensures
            db@ == snapshot_table(
                match snapshot {
                    Some(bytes) => Some(bytes@),
                    None => None,
                },
            ),
    {
        let loaded = match snapshot {
            Some(bytes) => match json_pairs(bytes) {
                Ok(pairs) => Some(pairs),
                Err(_) => None,
            },
            None => None,
        };
        DbControl::restore(loaded)
    }

    /// Whether every entry of this table stands in `other` with the same
    /// value.
    fn within(&self, other: &DbControl) -> (r: bool)
        ensures
            r == self@.submap_of(other@),
    {
        proof {
            use_type_invariant(self);
        }
        let mut i: usize = 0;
        while i < self.entries.len()
            invariant
                i <= self.entries@.len(),
                distinct_keys(self.entries@),
                forall|j: int|
                    0 <= j < i ==> {
                        &&& other@.contains_key((#[trigger] self.entries@[j]).0@)
                        &&& other@[self.entries@[j].0@] == self.entries@[j].1@
                    },
            decreases self.entries@.len() - i,
        {
            proof {
                lemma_pairs_table_value(self.entries@, i as int);
            }
            match other.get(&self.entries[i].0) {
                Some(v) => {
                    if !(v == self.entries[i].1) {
                        return false;
                    }
                },
                None => {
                    return false;
                },
            }
            i = i + 1;
        }
        proof {
            assert forall|k: Seq<char>| self@.contains_key(k) implies {
                &&& #[trigger] other@.contains_key(k)
                &&& self@[k] == other@[k]
            } by {
                lemma_pairs_table_dom(self.entries@, k);
                let j = choose|j: int|
                    0 <= j < self.entries@.len() && (#[trigger] self.entries@[j]).0@ == k;
                lemma_pairs_table_value(self.entries@, j);
            }
        }
        true
    }

    /// Decides whether `bytes` may be handed out as the snapshot of this
    /// table, given the pairs that were read back from them (`None`: they
    /// could not be read): only where the pairs give this very table.
    pub fn confirm(&self, bytes: Vec<u8>, read_back: Option<Vec<(String, String)>>) -> (r: Result<
        Vec<u8>,
        KvsError,
    >)
        ensures
            r == (if read_back matches Some(pairs) && pairs_table(pairs@) == self@ {
                Ok::<Vec<u8>, KvsError>(bytes)
            } else {
                Err::<Vec<u8>, KvsError>(KvsError::Persistence)
            }),
    {
        match read_back {
            Some(pairs) => {
                let copy = DbControl::restore(Some(pairs));
                if copy.within(self) && self.within(&copy) {
                    assert(copy@.dom() =~= self@.dom());
                    assert(copy@ =~= self@);
                    Ok(bytes)
                } else {
                    Err(KvsError::Persistence)
                }
            },
            None => Err(KvsError::Persistence),
        }
    }

    /// The snapshot of the table: a JSON document that describes it. The
    /// document is read back before it is handed out, and only one that
    /// gives this very table again is returned.
    pub fn backup(&self) -> (r: Result<Vec<u8>, KvsError>)
        ensures
            match r {
                Ok(bytes) => json_table(bytes@) == Some(self@),
                Err(e) => e == KvsError::Persistence,
            },
    {
        proof {
            use_type_invariant(self);
        }
        let bytes = match json_bytes(&self.entries) {
            Ok(bytes) => bytes,
            Err(_) => {
                return Err(KvsError::Persistence);
            },
        };
        let read_back = match json_pairs(bytes.as_slice()) {
            Ok(pairs) => Some(pairs),
            Err(_) => None,
        };
        self.confirm(bytes, read_back)
    }
}

/// The table that a server starts with, given what its snapshot file held
/// (`None`: no file, or one that could not be read).
pub open spec fn snapshot_table(snapshot: Option<Seq<u8>>) -> Map<Seq<char>, Seq<char>> {
    match snapshot {
        Some(bytes) => match json_table(bytes) {
            Some(table) => table,
            None => Map::empty(),
        },
        None => Map::empty(),
    }
}

/// A snapshot gives its table back: where `bytes` describe `table`, which
/// is what [`DbControl::backup`] promises of the bytes it hands out for
/// its table, a server that starts from `bytes` starts with `table`.
pub proof fn lemma_snapshot_round_trip(bytes: Seq<u8>, table: Map<Seq<char>, Seq<char>>)
    ensures
        json_table(bytes) == Some(table) ==> snapshot_table(Some(bytes)) == table,
{
}

} // verus!
