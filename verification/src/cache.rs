use crate::text::same_text;
use vstd::bytes::{
    lemma_auto_spec_u64_to_from_le_bytes, spec_u64_from_le_bytes, spec_u64_to_le_bytes,
    u64_from_le_bytes, u64_to_le_bytes,
};
use vstd::prelude::*;

verus! {

/// The state in which hashing starts.
pub const HASH_START: u64 = 0xcbf29ce484222325;

/// The factor by which hashing multiplies.
pub const HASH_FACTOR: u64 = 0x100000001b3;

/// The state of the hash after one more byte: the byte is mixed into the low bits of the
/// state, and the state multiplied by the factor, in 64 bits.
pub open spec fn mixed(state: u64, byte: u8) -> u64 {
    (((state ^ (byte as u64)) as nat * HASH_FACTOR as nat) % 0x1_0000_0000_0000_0000nat) as u64
}

/// The hash of a content: the state after all its bytes, from the first to the last.
pub open spec fn hash_of(bytes: Seq<u8>) -> u64
    decreases bytes.len(),
{
    if bytes.len() == 0 {
        HASH_START
    } else {
        mixed(hash_of(bytes.drop_last()), bytes.last())
    }
}

/// Hashes a content. The hash is fast and not cryptographic: two contents may have the
/// same hash, though two that differ in one byte never do.
pub fn content_hash(bytes: &[u8]) -> (hash: u64)
    ensures
        hash == hash_of(bytes@),
{
    let mut hash: u64 = HASH_START;
    let mut i: usize = 0;
    assert(bytes@.take(0) == Seq::<u8>::empty());
    while i < bytes.len()
        invariant
            i <= bytes.len(),
            hash == hash_of(bytes@.take(i as int)),
        decreases bytes.len() - i,
    {
        assert(bytes@.take(i + 1).drop_last() == bytes@.take(i as int));
        hash = (hash ^ (bytes[i] as u64)).wrapping_mul(HASH_FACTOR);
        i += 1;
    }
    assert(bytes@.take(bytes@.len() as int) == bytes@);
    hash
}

/// Multiplying by the factor, in 64 bits, can be undone.
proof fn lemma_factor_inverts(x: u64)
    by (bit_vector)
    ensures
        (((x * 0x100000001b3u64) % 0x1_0000_0000_0000_0000) * 0xce965057aff6957bu64)
            % 0x1_0000_0000_0000_0000 == x,
{
}

/// Mixing a byte into a state can be undone.
proof fn lemma_xor_differs(s: u64, t: u64, a: u8, b: u8)
    by (bit_vector)
    requires
        s != t || a != b,
        s == t || a == b,
    ensures
        s ^ (a as u64) != t ^ (b as u64),
{
}

/// One step of the hash tells two states apart, and two bytes.
proof fn lemma_mixed_differs(s: u64, t: u64, a: u8, b: u8)
    requires
        s != t || a != b,
        s == t || a == b,
    ensures
        mixed(s, a) != mixed(t, b),
{
    lemma_xor_differs(s, t, a, b);
    lemma_factor_inverts(s ^ (a as u64));
    lemma_factor_inverts(t ^ (b as u64));
}

/// Two contents that differ in one byte, and in nothing else, have different hashes.
pub proof fn lemma_changed_byte(a: Seq<u8>, b: Seq<u8>, at: int)
    requires
        a.len() == b.len(),
        0 <= at < a.len(),
        a[at] != b[at],
        forall|k: int| 0 <= k < a.len() && k != at ==> a[k] == b[k],
    ensures
        hash_of(a) != hash_of(b),
    decreases a.len(),
{
    if at == a.len() - 1 {
        assert(a.drop_last() =~= b.drop_last());
        lemma_mixed_differs(hash_of(a.drop_last()), hash_of(b.drop_last()), a.last(), b.last());
    } else {
        lemma_changed_byte(a.drop_last(), b.drop_last(), at);
        lemma_mixed_differs(hash_of(a.drop_last()), hash_of(b.drop_last()), a.last(), b.last());
    }
}

/// Writes a hash as the record that is kept of it: its eight bytes, the lowest first.
pub fn encode_hash(hash: u64) -> (record: Vec<u8>)
    ensures
        record@ == spec_u64_to_le_bytes(hash),
        record@.len() == 8,
{
    u64_to_le_bytes(hash)
}

/// Reads a hash from its record. A record that is not eight bytes long holds no hash.
pub fn decode_hash(record: &[u8]) -> (hash: Option<u64>)
    ensures
        match hash {
            Some(h) => record@.len() == 8 && h == spec_u64_from_le_bytes(record@),
            None => record@.len() != 8,
        },
{
    if record.len() == 8 {
        Some(u64_from_le_bytes(record))
    } else {
        None
    }
}

/// The hash read from the record of a hash is that hash.
pub proof fn lemma_record_round_trip(hash: u64)
    ensures
        spec_u64_to_le_bytes(hash).len() == 8,
        spec_u64_from_le_bytes(spec_u64_to_le_bytes(hash)) == hash,
{
    lemma_auto_spec_u64_to_from_le_bytes();
}

/// What the cache keeps of a file: its path, and the hash of its content.
#[derive(Debug, PartialEq, Eq)]
pub struct CacheEntry {
    pub path: String,
    pub hash: u64,
}

/// The hashes that a sequence of entries records, by path: a later entry of a path
/// replaces an earlier one.
pub open spec fn recorded(entries: Seq<CacheEntry>) -> Map<Seq<char>, u64>
    decreases entries.len(),
{
    if entries.len() == 0 {
        Map::empty()
    } else {
        recorded(entries.drop_last()).insert(entries.last().path@, entries.last().hash)
    }
}

/// True where no two entries are of the same path.
pub open spec fn distinct(entries: Seq<CacheEntry>) -> bool {
    forall|i: int, j: int| 0 <= i < j < entries.len() ==> entries[i].path@ != entries[j].path@
}

/// A path of which there is no entry is not recorded.
proof fn lemma_absent(entries: Seq<CacheEntry>, path: Seq<char>)
    requires
        forall|k: int| 0 <= k < entries.len() ==> entries[k].path@ != path,
    ensures
        !recorded(entries).contains_key(path),
    decreases entries.len(),
{
    if entries.len() > 0 {
        lemma_absent(entries.drop_last(), path);
    }
}

/// A path of which there is an entry is recorded with the hash of the entry.
proof fn lemma_present(entries: Seq<CacheEntry>, at: int)
    requires
        distinct(entries),
        0 <= at < entries.len(),
    ensures
        recorded(entries).contains_key(entries[at].path@),
        recorded(entries)[entries[at].path@] == entries[at].hash,
    decreases entries.len(),
{
    if at < entries.len() - 1 {
        lemma_present(entries.drop_last(), at);
    }
}

/// Replacing the entry of a path records the new hash for the path, and nothing else.
proof fn lemma_replaced(entries: Seq<CacheEntry>, at: int, entry: CacheEntry)
    requires
        distinct(entries),
        0 <= at < entries.len(),
        entries[at].path@ == entry.path@,
    ensures
        recorded(entries.update(at, entry)) == recorded(entries).insert(entry.path@, entry.hash),
        distinct(entries.update(at, entry)),
    decreases entries.len(),
{
    let after = entries.update(at, entry);
    if at == entries.len() - 1 {
        assert(after.drop_last() == entries.drop_last());
        assert(recorded(after) =~= recorded(entries).insert(entry.path@, entry.hash));
    } else {
        lemma_replaced(entries.drop_last(), at, entry);
        assert(after.drop_last() == entries.drop_last().update(at, entry));
        assert(recorded(after) =~= recorded(entries).insert(entry.path@, entry.hash));
    }
}

/// Whether a file is unchanged: the hash recorded for its path is the hash it has now.
pub open spec fn unchanged(cache: Map<Seq<char>, u64>, path: Seq<char>, hash: u64) -> bool {
    cache.contains_key(path) && cache[path] == hash
}

/// The cache of a build: for each path it has seen, the hash of the content last seen
/// there.
pub struct BuildCache {
    entries: Vec<CacheEntry>,
}

impl BuildCache {
    #[verifier::type_invariant]
    spec fn one_entry_per_path(&self) -> bool {
        distinct(self.entries@)
    }

    /// The hash recorded for each path.
    pub closed spec fn view(&self) -> Map<Seq<char>, u64> {
        recorded(self.entries@)
    }

    /// A cache that has seen nothing.
    pub fn new() -> (cache: BuildCache)
        ensures
            cache@ == Map::<Seq<char>, u64>::empty(),
    {
        BuildCache { entries: Vec::new() }
    }

    /// What the cache has recorded: one entry for each path.
    pub fn entries(&self) -> (entries: &Vec<CacheEntry>)
        ensures
            recorded(entries@) == self@,
            distinct(entries@),
    {
        proof {
            use_type_invariant(self);
        }
        &self.entries
    }

    /// The index of the entry of `path`, if there is one.
    fn find(&self, path: &str) -> (at: Option<usize>)
        ensures
            match at {
                Some(i) => i < self.entries@.len() && self.entries@[i as int].path@ == path@,
                None => forall|k: int|
                    0 <= k < self.entries@.len() ==> self.entries@[k].path@ != path@,
            },
    {
        let mut i: usize = 0;
        while i < self.entries.len()
            invariant
                i <= self.entries@.len(),
                forall|k: int| 0 <= k < i ==> self.entries@[k].path@ != path@,
            decreases self.entries.len() - i,
        {
            if same_text(self.entries[i].path.as_str(), path) {
                return Some(i);
            }
            i += 1;
        }
        None
    }

    /// The hash recorded for `path`, if one is.
    pub fn hash_at(&self, path: &str) -> (hash: Option<u64>)
        ensures
            match hash {
                Some(h) => self@.contains_key(path@) && self@[path@] == h,
                None => !self@.contains_key(path@),
            },
    {
        proof {
            use_type_invariant(self);
        }
        match self.find(path) {
            Some(i) => {
                proof {
                    lemma_present(self.entries@, i as int);
                }
                Some(self.entries[i].hash)
            },
            None => {
                proof {
                    lemma_absent(self.entries@, path@);
                }
                None
            },
        }
    }

    /// Whether the file at `path` is unchanged: whether `current_hash`, the hash of its
    /// content now, is the hash recorded for the path.
    pub fn should_skip(&self, path: &str, current_hash: u64) -> (skip: bool)
        ensures
            skip == unchanged(self@, path@, current_hash),
    {
        match self.hash_at(path) {
            Some(hash) => hash == current_hash,
            None => false,
        }
    }

    /// Records `current_hash` for `path`, in place of what was recorded for it.
    pub fn record(&mut self, path: &str, current_hash: u64)
        ensures
            final(self)@ == old(self)@.insert(path@, current_hash),
    {
        proof {
            use_type_invariant(&*self);
        }
        let entry = CacheEntry { path: path.to_owned(), hash: current_hash };
        let found = self.find(path);
        let mut taken = BuildCache::new();
        core::mem::swap(self, &mut taken);
        let BuildCache { entries } = taken;
        let mut entries = entries;
        match found {
            Some(i) => {
                proof {
                    lemma_replaced(entries@, i as int, entry);
                }
                entries.set(i, entry);
            },
            None => {
                assert(entries@.push(entry).drop_last() == entries@);
                entries.push(entry);
            },
        }
        *self = BuildCache { entries };
    }

    /// Whether the output of a document is up to date, so that the document need not be
    /// compiled: its source, its options and its template are all unchanged, and the
    /// output is there. Whatever the answer, the hashes of the three are recorded, each
    /// after it was compared.
    pub fn is_fresh(
        &mut self,
        source: &CacheEntry,
        options: &CacheEntry,
        template: &CacheEntry,
        output_exists: bool,
    ) -> (fresh: bool)
        ensures
            fresh == fresh_in(old(self)@, *source, *options, *template, output_exists),
            final(self)@ == seen(seen(seen(old(self)@, *source), *options), *template),
    {
        let same_source = self.should_skip(source.path.as_str(), source.hash);
        self.record(source.path.as_str(), source.hash);
        let same_options = self.should_skip(options.path.as_str(), options.hash);
        self.record(options.path.as_str(), options.hash);
        let same_template = self.should_skip(template.path.as_str(), template.hash);
        self.record(template.path.as_str(), template.hash);
        same_source && same_options && same_template && output_exists
    }
}

/// A cache after it has seen a file.
pub open spec fn seen(cache: Map<Seq<char>, u64>, file: CacheEntry) -> Map<Seq<char>, u64> {
    cache.insert(file.path@, file.hash)
}

/// Whether the output of a document is up to date in a cache: the source is unchanged,
/// the options are unchanged once the source is seen, the template is unchanged once both
/// are seen, and the output is there.
pub open spec fn fresh_in(
    cache: Map<Seq<char>, u64>,
    source: CacheEntry,
    options: CacheEntry,
    template: CacheEntry,
    output_exists: bool,
) -> bool {
    unchanged(cache, source.path@, source.hash) && unchanged(
        seen(cache, source),
        options.path@,
        options.hash,
    ) && unchanged(seen(seen(cache, source), options), template.path@, template.hash)
        && output_exists
}

/// True of files of which no two share a path without sharing a hash.
pub open spec fn agree(a: CacheEntry, b: CacheEntry) -> bool {
    a.path@ == b.path@ ==> a.hash == b.hash
}

/// A document compiled once is up to date when it is looked at again with nothing
/// changed and its output there, whatever the cache held before.
pub proof fn lemma_second_run_is_fresh(
    cache: Map<Seq<char>, u64>,
    source: CacheEntry,
    options: CacheEntry,
    template: CacheEntry,
)
    requires
        agree(source, options),
        agree(source, template),
        agree(options, template),
    ensures
        fresh_in(
            seen(seen(seen(cache, source), options), template),
            source,
            options,
            template,
            true,
        ),
{
}

/// A file of which one byte has changed since its hash was recorded is not unchanged.
pub proof fn lemma_changed_byte_is_seen(
    cache: Map<Seq<char>, u64>,
    path: Seq<char>,
    before: Seq<u8>,
    now: Seq<u8>,
    at: int,
)
    requires
        before.len() == now.len(),
        0 <= at < before.len(),
        before[at] != now[at],
        forall|k: int| 0 <= k < before.len() && k != at ==> before[k] == now[k],
    ensures
        !unchanged(cache.insert(path, hash_of(before)), path, hash_of(now)),
{
    lemma_changed_byte(before, now, at);
}

} // verus!
