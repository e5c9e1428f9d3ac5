//! The list of verified files: which digest each file name was last seen with.

use vstd::prelude::*;

use crate::digest::Sha256Hash;
use crate::error::{invalid_data, TaError};
use crate::manifest::{
    collect, lemma_collect_distinct, lemma_line_end, lemma_parse_of_manifest_text, line_feed,
    manifest_text, parse_line, parse_manifest, prepend, read_escaped, record_line, write_escaped,
};
use crate::text::chars_of;

verus! {

/// The position of the entry for `name` in `records`, if there is one: the
/// last one, should the name occur more than once.
pub open spec fn find<V>(records: Seq<(Seq<char>, V)>, name: Seq<char>) -> Option<int>
    decreases records.len(),
{
    if records.len() == 0 {
        None
    } else if records.last().0 == name {
        Some(records.len() - 1)
    } else {
        find(records.drop_last(), name)
    }
}

/// What is recorded for `name`, if anything.
pub open spec fn lookup<V>(records: Seq<(Seq<char>, V)>, name: Seq<char>) -> Option<V> {
    match find(records, name) {
        Some(i) => Some(records[i].1),
        None => None,
    }
}

/// `records` with `digest` recorded for `name`: in the place of the entry that
/// `name` had, or at the end if it had none.
pub open spec fn upsert(
    records: Seq<(Seq<char>, Seq<u8>)>,
    name: Seq<char>,
    digest: Seq<u8>,
) -> Seq<(Seq<char>, Seq<u8>)> {
    match find(records, name) {
        Some(i) => records.update(i, (name, digest)),
        None => records.push((name, digest)),
    }
}

/// The mapping that `records` stand for: each name that has an entry, with
/// what its last one records.
pub open spec fn as_map<V>(records: Seq<(Seq<char>, V)>) -> Map<Seq<char>, V> {
    Map::new(
        |name: Seq<char>| lookup(records, name) is Some,
        |name: Seq<char>| lookup(records, name).unwrap(),
    )
}

/// No file name occurs twice.
pub open spec fn distinct<V>(records: Seq<(Seq<char>, V)>) -> bool {
    forall|i: int, j: int|
        0 <= i < j < records.len() ==> (#[trigger] records[i]).0 != (#[trigger] records[j]).0
}

/// What `find` returns: an entry for the name with none for it behind, or
/// nothing where no entry has the name.
pub proof fn lemma_find<V>(records: Seq<(Seq<char>, V)>, name: Seq<char>)
    ensures
        match find(records, name) {
            Some(i) => {
                &&& 0 <= i < records.len()
                &&& records[i].0 == name
                &&& forall|j: int| i < j < records.len() ==> (#[trigger] records[j]).0 != name
            },
            None => forall|j: int| 0 <= j < records.len() ==> (#[trigger] records[j]).0 != name,
        },
    decreases records.len(),
{
    if records.len() > 0 && records.last().0 != name {
        let front = records.drop_last();
        lemma_find(front, name);
        assert forall|j: int| 0 <= j < front.len() implies #[trigger] records[j] == front[j] by {}
        match find(front, name) {
            Some(i) => {
                assert forall|j: int| i < j < records.len() implies (#[trigger] records[j]).0
                    != name by {
                    if j < front.len() {
                        assert(front[j].0 != name);
                    }
                }
            },
            None => {
                assert forall|j: int| 0 <= j < records.len() implies (#[trigger] records[j]).0
                    != name by {
                    if j < front.len() {
                        assert(front[j].0 != name);
                    }
                }
            },
        }
    }
}

/// Among entries with distinct names, the entry of a name is what is
/// recorded for the name.
pub proof fn lemma_lookup_entry<V>(records: Seq<(Seq<char>, V)>, at: int)
    requires
        distinct(records),
        0 <= at < records.len(),
    ensures
        find(records, records[at].0) == Some(at),
        lookup(records, records[at].0) == Some(records[at].1),
{
    lemma_find(records, records[at].0);
    let found = find(records, records[at].0).unwrap();
    if found != at {
        assert(records[found].0 == records[at].0);
    }
}

/// Recording a digest keeps the names distinct.
pub proof fn lemma_upsert_distinct(
    records: Seq<(Seq<char>, Seq<u8>)>,
    name: Seq<char>,
    digest: Seq<u8>,
)
    requires
        distinct(records),
    ensures
        distinct(upsert(records, name, digest)),
{
    lemma_find(records, name);
}

/// After recording a digest for a name, that name has the digest and every
/// other name has what it had.
pub proof fn lemma_lookup_upsert(
    records: Seq<(Seq<char>, Seq<u8>)>,
    name: Seq<char>,
    digest: Seq<u8>,
    other: Seq<char>,
)
    requires
        distinct(records),
    ensures
        lookup(upsert(records, name, digest), other) == if other == name {
            Some(digest)
        } else {
            lookup(records, other)
        },
{
    let after = upsert(records, name, digest);
    lemma_find(records, name);
    lemma_find(records, other);
    lemma_find(after, other);
    lemma_upsert_distinct(records, name, digest);
    if other == name {
        match find(records, name) {
            Some(i) => {
                let k = find(after, other).unwrap();
                assert(after[i].0 == name);
                if k != i {
                    assert(after[k].0 == after[i].0);
                    if k < i {
                        assert(distinct(after));
                    }
                }
            },
            None => {
                assert(after.last().0 == name);
            },
        }
    } else {
        match find(records, other) {
            Some(i) => {
                assert(after[i].0 == other);
                let k = find(after, other).unwrap();
                if k != i {
                    assert(after[k].0 == after[i].0);
                }
            },
            None => {
                if let Some(k) = find(after, other) {
                    if k < records.len() {
                        assert(records[k].0 == other);
                    }
                }
            },
        }
    }
}

/// Recording a digest for a name is an insertion into the mapping.
pub proof fn lemma_as_map_upsert(
    records: Seq<(Seq<char>, Seq<u8>)>,
    name: Seq<char>,
    digest: Seq<u8>,
)
    requires
        distinct(records),
    ensures
        as_map(upsert(records, name, digest)) == as_map(records).insert(name, digest),
{
    let after = as_map(upsert(records, name, digest));
    let inserted = as_map(records).insert(name, digest);
    assert forall|other: Seq<char>| #[trigger]
        after.contains_key(other) == inserted.contains_key(other) && (after.contains_key(other)
            ==> after[other] == inserted[other]) by {
        lemma_lookup_upsert(records, name, digest, other);
    }
    assert(after =~= inserted);
}

/// What reading the manifest file gave.
pub enum ManifestRead {
    /// There is no such file.
    Missing,
    /// The file's text.
    Content(String),
    /// The file could not be read.
    Failed(std::io::Error),
}

/// The files that were verified, each with the digest it was last seen with,
/// in the order in which the names were first recorded.
pub struct HashList {
    entries: Vec<(String, Sha256Hash)>,
}

impl View for HashList {
    type V = Map<Seq<char>, Seq<u8>>;

    /// The mapping from file name to digest.
    open spec fn view(&self) -> Map<Seq<char>, Seq<u8>> {
        as_map(self.records())
    }
}

impl HashList {
    /// The entries as plain values, in order.
    pub closed spec fn records(&self) -> Seq<(Seq<char>, Seq<u8>)> {
        Seq::new(self.entries@.len(), |i: int| (self.entries@[i].0@, self.entries@[i].1@))
    }

    /// No file name has two entries.
    #[verifier::type_invariant]
    pub open spec fn wf(&self) -> bool {
        distinct(self.records())
    }

    /// An empty list.
    pub fn new() -> (list: Self)
        ensures
            list.records() == Seq::<(Seq<char>, Seq<u8>)>::empty(),
            list@ == Map::<Seq<char>, Seq<u8>>::empty(),
    {
        let list = HashList { entries: Vec::new() };
        assert(list.records() =~= Seq::empty());
        assert(list@ =~= Map::empty());
        list
    }

    /// Where the entry for `name` stands.
    fn position(&self, name: &String) -> (at: Option<usize>)
        ensures
            match at {
                Some(i) => find(self.records(), name@) == Some(i as int) && i < self.entries@.len(),
                None => find(self.records(), name@) is None,
            },
    {
        let mut i: usize = self.entries.len();
        proof {
            assert(self.records().take(i as int) =~= self.records());
        }
        while i > 0
            invariant
                i <= self.entries@.len(),
                find(self.records(), name@) == find(self.records().take(i as int), name@),
            decreases i,
        {
            i -= 1;
            proof {
                let prefix = self.records().take(i + 1);
                assert(prefix.drop_last() =~= self.records().take(i as int));
                assert(prefix.last() == self.records()[i as int]);
            }
            if self.entries[i].0 == *name {
                return Some(i);
            }
        }
        None
    }

    /// The digest recorded for `filename`, if any.
    pub fn get_hash(&self, filename: &str) -> (hash: Option<&Sha256Hash>)
        ensures
            match hash {
                Some(h) => lookup(self.records(), filename@) == Some(h@),
                None => lookup(self.records(), filename@) is None,
            },
            hash is Some <==> self@.contains_key(filename@),
            hash matches Some(h) ==> self@[filename@] == h@,
    {
        let name = filename.to_owned();
        match self.position(&name) {
            Some(i) => Some(&self.entries[i].1),
            None => None,
        }
    }

    /// Records `hash` for `filename`, in the place of what was recorded for it before.
    pub fn add_entry(&mut self, filename: &str, hash: &Sha256Hash)
        ensures
            final(self).records() == upsert(old(self).records(), filename@, hash@),
            final(self)@ == old(self)@.insert(filename@, hash@),
            distinct(final(self).records()),
    {
        proof {
            use_type_invariant(&*self);
            lemma_upsert_distinct(self.records(), filename@, hash@);
            lemma_as_map_upsert(self.records(), filename@, hash@);
        }
        let name = filename.to_owned();
        let at = self.position(&name);
        let mut taken = HashList::new();
        std::mem::swap(self, &mut taken);
        let ghost before = taken.records();
        let mut entries = taken.entries;
        match at {
            Some(i) => {
                entries.set(i, (name, hash.clone()));
            },
            None => {
                entries.push((name, hash.clone()));
            },
        }
        proof {
            let after = Seq::new(entries@.len(), |i: int| (entries@[i].0@, entries@[i].1@));
            assert(after =~= upsert(before, filename@, hash@));
        }
        *self = HashList { entries };
    }

    /// The list to start a run with, from what reading the manifest gave: the
    /// empty list where there is no manifest yet, else what its text spells.
    pub fn load(read: ManifestRead) -> (loaded: Result<Self, TaError>)
        ensures
            match read {
                ManifestRead::Missing => loaded matches Ok(list) && list.records()
                    == Seq::<(Seq<char>, Seq<u8>)>::empty(),
                ManifestRead::Content(text) => match parse_manifest(text@) {
                    Some(records) => loaded matches Ok(list) && list.records() == collect(records),
                    None => loaded matches Err(e) && e is Io,
                },
                ManifestRead::Failed(err) => loaded matches Err(e) && e == TaError::Io(err),
            },
            loaded matches Ok(list) ==> distinct(list.records()),
    {
        match read {
            ManifestRead::Missing => Ok(HashList::new()),
            ManifestRead::Content(text) => HashList::parse(text.as_str()),
            ManifestRead::Failed(err) => Err(TaError::Io(err)),
        }
    }

    /// The text of the manifest: a line for each entry, in order. Reading
    /// the text gives the list back.
    pub fn serialize(&self) -> (text: String)
        ensures
            text@ == manifest_text(self.records()),
            parse_manifest(text@) == Some(self.records()),
            collect(self.records()) == self.records(),
    {
        proof {
            use_type_invariant(self);
            lemma_manifest_round_trip(*self);
        }
        let ghost records = self.records();
        let mut text = String::new();
        let mut i: usize = 0;
        assert(records.skip(0) =~= records);
        while i < self.entries.len()
            invariant
                i <= self.entries@.len(),
                records == self.records(),
                text@ + manifest_text(records.skip(i as int)) == manifest_text(records),
            decreases self.entries@.len() - i,
        {
            let ghost before = text@;
            let ghost tail = records.skip(i as int);
            let hex = self.entries[i].1.to_hex();
            text.append(hex.as_str());
            text.push(' ');
            write_escaped(&mut text, self.entries[i].0.as_str());
            text.push('\n');
            proof {
                assert(tail[0] == records[i as int]);
                assert(tail.skip(1) =~= records.skip(i + 1));
                assert(text@ =~= before + record_line(tail[0]).push(line_feed()));
                assert(text@ + manifest_text(records.skip(i + 1)) =~= before + manifest_text(tail));
            }
            i += 1;
        }
        assert(manifest_text(records.skip(i as int)) =~= Seq::<char>::empty());
        assert(text@ =~= text@ + Seq::<char>::empty());
        text
    }

    /// Reads the text of a manifest: the list that recording its lines one
    /// after the other gives. Fails with an I/O error if a line is malformed.
    pub fn parse(text: &str) -> (parsed: Result<Self, TaError>)
        ensures
            match parse_manifest(text@) {
                Some(records) => parsed matches Ok(list) && list.records() == collect(records),
                None => parsed matches Err(e) && e is Io,
            },
            parsed matches Ok(list) ==> distinct(list.records()),
    {
        let chars = chars_of(text);
        let n: usize = chars.len();
        let mut list = HashList::new();
        let ghost mut done: Seq<(Seq<char>, Seq<u8>)> = Seq::empty();
        let mut start: usize = 0;
        proof {
            assert(chars@.skip(0) =~= chars@);
            if let Some(all) = parse_manifest(chars@) {
                assert(done + all =~= all);
            }
        }
        while start < n
            invariant
                n == chars@.len(),
                start <= n,
                chars@ == text@,
                list.records() == collect(done),
                parse_manifest(chars@) == prepend(done, parse_manifest(chars@.skip(start as int))),
            decreases n - start,
        {
            let mut end: usize = start;
            while end < n && chars[end] != '\n'
                invariant
                    start <= end <= n,
                    n == chars@.len(),
                    forall|j: int| start <= j < end ==> chars@[j] != line_feed(),
                decreases n - end,
            {
                end += 1;
            }
            let ghost rest = chars@.skip(start as int);
            let ghost line = chars@.subrange(start as int, end as int);
            proof {
                assert forall|i: int| 0 <= i < end - start implies rest[i] != line_feed() by {
                    assert(rest[i] == chars@[start + i]);
                }
                lemma_line_end(rest, end - start);
                assert(rest.take(end - start) =~= line);
                if end == n {
                    assert(rest =~= line);
                }
            }
            if end - start < 65 || chars[start + 64] != ' ' {
                assert(parse_line(line) is None);
                return Err(TaError::Io(invalid_data()));
            }
            assert(line.take(64) =~= chars@.subrange(start as int, start + 64));
            let hash = match Sha256Hash::from_hex_chars(&chars, start) {
                Some(hash) => hash,
                None => {
                    assert(parse_line(line) is None);
                    return Err(TaError::Io(invalid_data()));
                },
            };
            assert(line.skip(65) =~= chars@.subrange(start + 65, end as int));
            let name = match read_escaped(&chars, start + 65, end) {
                Some(name) => name,
                None => {
                    assert(parse_line(line) is None);
                    return Err(TaError::Io(invalid_data()));
                },
            };
            let ghost record = (name@, hash@);
            assert(parse_line(line) == Some(record));
            list.add_entry(name.as_str(), &hash);
            let next: usize = if end < n {
                end + 1
            } else {
                end
            };
            proof {
                let after = done.push(record);
                assert(after.drop_last() =~= done);
                assert(list.records() == collect(after));
                let more = parse_manifest(chars@.skip(next as int));
                if end == n {
                    assert(chars@.skip(next as int) =~= Seq::<char>::empty());
                    assert(parse_manifest(rest) == Some(seq![record]));
                    assert(done + seq![record] =~= after + more.unwrap());
                } else {
                    assert(rest.skip(end - start + 1) =~= chars@.skip(next as int));
                    if let Some(more) = more {
                        assert(parse_manifest(rest) == Some(seq![record] + more));
                        assert(done + (seq![record] + more) =~= after + more);
                    }
                }
                done = after;
            }
            start = next;
        }
        proof {
            assert(chars@.skip(start as int) =~= Seq::<char>::empty());
            assert(done + Seq::<(Seq<char>, Seq<u8>)>::empty() =~= done);
            use_type_invariant(&list);
        }
        Ok(list)
    }
}

/// Reading the text that `serialize` writes gives the list back: the same
/// entries in the same order, whatever the file names hold.
pub proof fn lemma_manifest_round_trip(list: HashList)
    requires
        distinct(list.records()),
    ensures
        parse_manifest(manifest_text(list.records())) == Some(list.records()),
        collect(list.records()) == list.records(),
{
    let records = list.records();
    assert forall|i: int| 0 <= i < records.len() implies (#[trigger] records[i]).1.len()
        == 32 by {
        list.entries@[i].1.lemma_len();
    }
    lemma_parse_of_manifest_text(records);
    lemma_collect_distinct(records);
}

} // verus!
