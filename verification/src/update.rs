//! The update step: the server's list of files, the local cache of the
//! digests already checked, and the decisions made for each listed file.
use vstd::prelude::*;
use crate::text::{eq_ignore_ascii_case, spec_eq_ignore_ascii_case};

verus! {

/// One file that the update server lists.
#[derive(Hash, PartialEq, Eq, Clone, Debug)]
pub struct FileInfo {
    pub path: String,
    pub hash: String,
    pub size: u64,
    pub url: String,
}

/// The update server's list of files.
#[derive(Hash, PartialEq, Eq, Clone, Debug)]
pub struct HashFile {
    pub files: Vec<FileInfo>,
}

/// The map that a list of (path, digest) entries stands for; a later entry
/// for a path wins over an earlier one.
pub open spec fn map_of(e: Seq<(String, String)>) -> Map<Seq<char>, Seq<char>>
    decreases e.len(),
{
    if e.len() == 0 {
        Map::empty()
    } else {
        map_of(e.drop_last()).insert(e.last().0@, e.last().1@)
    }
}

/// No path occurs twice in the entries.
pub open spec fn distinct_keys(e: Seq<(String, String)>) -> bool {
    forall|i: int, j: int| 0 <= i < j < e.len() ==> #[trigger] e[i].0@ != #[trigger] e[j].0@
}

/// The digests of the files that were found up to date or downloaded, by
/// path: what the launcher keeps in its `cache` file between runs.
pub struct HashCache {
    entries: Vec<(String, String)>,
}

impl View for HashCache {
    type V = Map<Seq<char>, Seq<char>>;

    closed spec fn view(&self) -> Map<Seq<char>, Seq<char>> {
        map_of(self.entries@)
    }
}

proof fn lemma_map_of_dom(e: Seq<(String, String)>, k: Seq<char>)
    ensures
        map_of(e).dom().contains(k) <==> exists|i: int| 0 <= i < e.len() && #[trigger] e[i].0@ == k,
    decreases e.len(),
{
    if e.len() > 0 {
        lemma_map_of_dom(e.drop_last(), k);
        if map_of(e.drop_last()).dom().contains(k) {
            let i = choose|i: int| 0 <= i < e.drop_last().len() && #[trigger] e.drop_last()[i].0@ == k;
            assert(e[i].0@ == k);
        }
        if exists|i: int| 0 <= i < e.len() && #[trigger] e[i].0@ == k {
            let i = choose|i: int| 0 <= i < e.len() && #[trigger] e[i].0@ == k;
            if i < e.len() - 1 {
                assert(e.drop_last()[i].0@ == k);
            }
        }
    }
}

proof fn lemma_map_of_at(e: Seq<(String, String)>, i: int)
    requires
        distinct_keys(e),
        0 <= i < e.len(),
    ensures
        map_of(e).dom().contains(e[i].0@),
        map_of(e)[e[i].0@] == e[i].1@,
    decreases e.len(),
{
    lemma_map_of_dom(e, e[i].0@);
    if i < e.len() - 1 {
        assert(e.drop_last()[i] == e[i]);
        lemma_map_of_at(e.drop_last(), i);
        assert(e[i].0@ != e[e.len() - 1].0@);
    }
}

proof fn lemma_map_of_update(e: Seq<(String, String)>, i: int, p: (String, String))
    requires
        distinct_keys(e),
        0 <= i < e.len(),
        p.0@ == e[i].0@,
    ensures
        map_of(e.update(i, p)) == map_of(e).insert(p.0@, p.1@),
        distinct_keys(e.update(i, p)),
    decreases e.len(),
{
    let u = e.update(i, p);
    if i == e.len() - 1 {
        assert(u.drop_last() == e.drop_last());
        assert(map_of(e.drop_last()).insert(p.0@, e[i].1@).insert(p.0@, p.1@) == map_of(
            e.drop_last(),
        ).insert(p.0@, p.1@));
    } else {
        assert(u.drop_last() == e.drop_last().update(i, p));
        lemma_map_of_update(e.drop_last(), i, p);
        let k = e.last().0@;
        assert(k != p.0@);
        assert(map_of(e.drop_last()).insert(p.0@, p.1@).insert(k, e.last().1@) == map_of(
            e.drop_last(),
        ).insert(k, e.last().1@).insert(p.0@, p.1@));
    }
}

proof fn lemma_map_of_len(e: Seq<(String, String)>)
    requires
        distinct_keys(e),
    ensures
        map_of(e).dom().finite(),
        map_of(e).dom().len() == e.len(),
    decreases e.len(),
{
    if e.len() > 0 {
        lemma_map_of_len(e.drop_last());
        let k = e.last().0@;
        lemma_map_of_dom(e.drop_last(), k);
        if map_of(e.drop_last()).dom().contains(k) {
            let i = choose|i: int| 0 <= i < e.drop_last().len() && #[trigger] e.drop_last()[i].0@ == k;
            assert(e[i].0@ == k);
        }
    }
}

/// The map that `serde_json::from_str` reads from `text` as a JSON object
/// of string values keyed by string, `None` when `text` is no such object.
pub uninterp spec fn spec_cache_json(text: Seq<char>) -> Option<Map<Seq<char>, Seq<char>>>;

/// Reads the cache file's text.
///
/// Trusted wrapper around `serde_json::from_str` into a
/// `HashMap<String, String>`, whose entries are then listed. The contract
/// names the map read (a function of the text alone); the order of the
/// listed entries follows the map's hasher and is left open.
#[verifier::external_body]
fn parse_cache_json(text: &str) -> (r: Option<Vec<(String, String)>>)
    ensures
        match r {
            Some(e) => spec_cache_json(text@) == Some(map_of(e@)),
            None => spec_cache_json(text@) is None,
        },
{
    match serde_json::from_str::<std::collections::HashMap<String, String>>(text) {
        Ok(m) => Some(m.into_iter().collect()),
        Err(_) => None,
    }
}

/// Writes entries as the cache file's text.
///
/// Trusted wrapper around `serde_json::to_string` of the
/// `HashMap<String, String>` the entries make (a later entry for a path
/// wins, as in `map_of`). A map keyed by strings always serialises, and the
/// JSON text reads back, through `serde_json::from_str`, as the same map; the
/// order of the keys in the text follows the map's hasher and is left open.
#[verifier::external_body]
fn cache_json(entries: &Vec<(String, String)>) -> (r: String)
    ensures
        spec_cache_json(r@) == Some(map_of(entries@)),
{
    let m: std::collections::HashMap<String, String> = entries.iter().cloned().collect();
    match serde_json::to_string(&m) {
        Ok(t) => t,
        Err(_) => String::new(),
    }
}

/// The cache as the launcher starts with it: empty when there is no cache
/// file, else what the file's text reads as; `None` when that text is no
/// JSON object of strings.
pub fn load_cache(text: Option<&str>) -> (r: Option<HashCache>)
    ensures
        text is None ==> (r matches Some(c) && c@ == Map::<Seq<char>, Seq<char>>::empty()),
        text matches Some(t) ==> match r {
            Some(c) => spec_cache_json(t@) == Some(c@),
            None => spec_cache_json(t@) is None,
        },
{
    match text {
        None => Some(HashCache::new()),
        Some(t) => match parse_cache_json(t) {
            Some(entries) => Some(HashCache::from_entries(&entries)),
            None => None,
        },
    }
}

impl HashCache {
    #[verifier::type_invariant]
    spec fn wf(&self) -> bool {
        distinct_keys(self.entries@)
    }

    /// An empty cache.
    pub fn new() -> (r: HashCache)
        ensures
            r@ == Map::<Seq<char>, Seq<char>>::empty(),
    {
        HashCache { entries: Vec::new() }
    }

    /// The position of the entry for `key`, if there is one.
    fn find(&self, key: &String) -> (r: Option<usize>)
        ensures
            r matches Some(i) ==> i < self.entries@.len() && self.entries@[i as int].0@ == key@,
            r is None ==> !self@.dom().contains(key@),
    {
        let n = self.entries.len();
        for i in 0..n
            invariant
                n == self.entries@.len(),
                forall|j: int| 0 <= j < i ==> #[trigger] self.entries@[j].0@ != key@,
        {
            if self.entries[i].0 == *key {
                return Some(i);
            }
        }
        proof {
            lemma_map_of_dom(self.entries@, key@);
        }
        None
    }

    /// A cache holding the given (path, digest) entries; where a path occurs
    /// more than once, its last entry wins.
    pub fn from_entries(entries: &Vec<(String, String)>) -> (r: HashCache)
        ensures
            r@ == map_of(entries@),
    {
        let mut r = HashCache::new();
        let n = entries.len();
        for i in 0..n
            invariant
                n == entries@.len(),
                r@ == map_of(entries@.take(i as int)),
        {
            let path = entries[i].0.clone();
            let hash = entries[i].1.clone();
            proof {
                assert(entries@.take(i + 1).drop_last() == entries@.take(i as int));
            }
            r.insert(path, hash);
        }
        assert(entries@.take(n as int) == entries@);
        r
    }

    /// The digest recorded for `path`.
    pub fn get(&self, path: &str) -> (r: Option<&String>)
        ensures
            r is Some <==> self@.dom().contains(path@),
            r matches Some(h) ==> h@ == self@[path@],
    {
        proof {
            use_type_invariant(self);
        }
        let key = String::from_str(path);
        match self.find(&key) {
            Some(i) => {
                proof {
                    lemma_map_of_at(self.entries@, i as int);
                }
                Some(&self.entries[i].1)
            },
            None => None,
        }
    }

    /// Records `hash` as the digest of `path`, replacing any earlier one.
    pub fn insert(&mut self, path: String, hash: String)
        ensures
            final(self)@ == old(self)@.insert(path@, hash@),
    {
        proof {
            use_type_invariant(&*self);
        }
        let found = self.find(&path);
        let mut entries: Vec<(String, String)> = Vec::new();
        std::mem::swap(&mut entries, &mut self.entries);
        let ghost e = entries@;
        match found {
            Some(i) => {
                proof {
                    lemma_map_of_update(e, i as int, (path, hash));
                }
                entries.set(i, (path, hash));
            },
            None => {
                proof {
                    lemma_map_of_dom(e, path@);
                    assert(e.push((path, hash)).drop_last() == e);
                }
                entries.push((path, hash));
            },
        }
        self.entries = entries;
    }

    /// Whether nothing is recorded.
    pub fn is_empty(&self) -> (r: bool)
        ensures
            r <==> self@.dom().len() == 0,
    {
        proof {
            use_type_invariant(self);
            lemma_map_of_len(self.entries@);
        }
        self.entries.len() == 0
    }

    /// The number of paths recorded.
    pub fn len(&self) -> (r: usize)
        ensures
            r == self@.dom().len(),
    {
        proof {
            use_type_invariant(self);
            lemma_map_of_len(self.entries@);
        }
        self.entries.len()
    }

    /// The text of the cache file, which reads back as this cache.
    pub fn to_json(&self) -> (r: String)
        ensures
            spec_cache_json(r@) == Some(self@),
    {
        let entries = self.to_entries();
        cache_json(&entries)
    }

    /// The recorded (path, digest) pairs, each path once, for writing the
    /// cache out.
    pub fn to_entries(&self) -> (r: Vec<(String, String)>)
        ensures
            distinct_keys(r@),
            map_of(r@) == self@,
    {
        proof {
            use_type_invariant(self);
        }
        let mut r: Vec<(String, String)> = Vec::new();
        let n = self.entries.len();
        for i in 0..n
            invariant
                n == self.entries@.len(),
                distinct_keys(self.entries@),
                r@.len() == i,
                forall|j: int| #![trigger r@[j]] 0 <= j < i ==> (r@[j].0@ == self.entries@[j].0@),
                forall|j: int| #![trigger r@[j]] 0 <= j < i ==> (r@[j].1@ == self.entries@[j].1@),
                map_of(r@) == map_of(self.entries@.take(i as int)),
        {
            let k = self.entries[i].0.clone();
            let v = self.entries[i].1.clone();
            assert(k@ == self.entries@[i as int].0@);
            let p = (k, v);
            let ghost old_r = r@;
            r.push(p);
            proof {
                assert(r@.drop_last() == old_r);
                assert(v@ == self.entries@[i as int].1@);
                assert(self.entries@.take(i + 1).drop_last() == self.entries@.take(i as int));
                assert(map_of(r@) == map_of(old_r).insert(p.0@, p.1@));
                assert(map_of(self.entries@.take(i + 1)) == map_of(
                    self.entries@.take(i as int),
                ).insert(self.entries@[i as int].0@, self.entries@[i as int].1@));
            }
        }
        assert(self.entries@.take(n as int) == self.entries@);
        assert forall|a: int, b: int| 0 <= a < b < r@.len() implies #[trigger] r@[a].0@
            != #[trigger] r@[b].0@ by {
            assert(r@[a].0@ == self.entries@[a].0@);
            assert(r@[b].0@ == self.entries@[b].0@);
        }
        r
    }
}

/// What the cache says of a listed file.
#[derive(Clone, Copy, Debug, PartialEq, Eq)]
pub enum CacheVerdict {
    /// The cached digest matches the listed one: nothing to do.
    UpToDate,
    /// A digest is cached and differs: download the file.
    Outdated,
    /// Nothing is cached for the path: look at the file on disk.
    Unknown,
}

/// The verdict of the cache on a file whose listed digest is
/// `expected_hash`; digests compare without regard to ASCII case.
pub open spec fn spec_cache_verdict(
    cache: Map<Seq<char>, Seq<char>>,
    path: Seq<char>,
    expected_hash: Seq<char>,
) -> CacheVerdict {
    if !cache.dom().contains(path) {
        CacheVerdict::Unknown
    } else if spec_eq_ignore_ascii_case(cache[path], expected_hash) {
        CacheVerdict::UpToDate
    } else {
        CacheVerdict::Outdated
    }
}

/// Looks a listed file up in the cache.
pub fn check_cached(cache: &HashCache, path: &str, expected_hash: &str) -> (r: CacheVerdict)
    ensures
        r == spec_cache_verdict(cache@, path@, expected_hash@),
{
    match cache.get(path) {
        Some(existing) => {
            if eq_ignore_ascii_case(existing.as_str(), expected_hash) {
                CacheVerdict::UpToDate
            } else {
                CacheVerdict::Outdated
            }
        },
        None => CacheVerdict::Unknown,
    }
}

/// Takes the digest of a file found on disk: when it matches the listed
/// digest (up to ASCII case) the file is up to date and its digest is
/// cached; otherwise the cache stays as it is and the file is downloaded.
pub fn accept_local_hash(
    cache: &mut HashCache,
    path: &str,
    local_hash: String,
    expected_hash: &str,
) -> (up_to_date: bool)
    ensures
        up_to_date == spec_eq_ignore_ascii_case(local_hash@, expected_hash@),
        up_to_date ==> final(cache)@ == old(cache)@.insert(path@, local_hash@),
        !up_to_date ==> final(cache)@ == old(cache)@,
{
    if eq_ignore_ascii_case(local_hash.as_str(), expected_hash) {
        cache.insert(String::from_str(path), local_hash);
        true
    } else {
        false
    }
}

/// A file whose digest was just recorded (after a download) is found up to
/// date when checked against that same digest.
pub proof fn lemma_recorded_is_up_to_date(
    cache: Map<Seq<char>, Seq<char>>,
    path: Seq<char>,
    hash: Seq<char>,
)
    ensures
        spec_cache_verdict(cache.insert(path, hash), path, hash) == CacheVerdict::UpToDate,
{
}

/// A file whose digest on disk was accepted is found up to date on the
/// next check against the listed digest.
pub proof fn lemma_accepted_is_up_to_date(
    cache: Map<Seq<char>, Seq<char>>,
    path: Seq<char>,
    local_hash: Seq<char>,
    expected_hash: Seq<char>,
)
    requires
        spec_eq_ignore_ascii_case(local_hash, expected_hash),
    ensures
        spec_cache_verdict(cache.insert(path, local_hash), path, expected_hash)
            == CacheVerdict::UpToDate,
{
}

/// Recording a digest for one path leaves the verdict on every other path
/// as it was.
pub proof fn lemma_record_keeps_other_paths(
    cache: Map<Seq<char>, Seq<char>>,
    path: Seq<char>,
    hash: Seq<char>,
    other: Seq<char>,
    expected_hash: Seq<char>,
)
    requires
        other != path,
    ensures
        spec_cache_verdict(cache.insert(path, hash), other, expected_hash) == spec_cache_verdict(
            cache,
            other,
            expected_hash,
        ),
{
}

/// What the update does with one listed file.
#[derive(Clone, Copy, Debug, PartialEq, Eq)]
pub enum FileAction {
    /// The file is up to date.
    Skip,
    /// Hash the file on disk and compare (see [`accept_local_hash`]).
    HashLocal,
    /// Download the file.
    Download,
}

/// The action for a listed file, given the cache's verdict and, for a file
/// the cache knows nothing of, whether it exists on disk: an up-to-date file
/// is skipped, an outdated one is downloaded without looking at the disk,
/// an unknown one is hashed when it exists and downloaded otherwise.
pub open spec fn spec_file_action(verdict: CacheVerdict, exists_on_disk: bool) -> FileAction {
    match verdict {
        CacheVerdict::UpToDate => FileAction::Skip,
        CacheVerdict::Outdated => FileAction::Download,
        CacheVerdict::Unknown => if exists_on_disk {
            FileAction::HashLocal
        } else {
            FileAction::Download
        },
    }
}

/// Decides the action for a listed file.
pub fn file_action(verdict: CacheVerdict, exists_on_disk: bool) -> (r: FileAction)
    ensures
        r == spec_file_action(verdict, exists_on_disk),
{
    match verdict {
        CacheVerdict::UpToDate => FileAction::Skip,
        CacheVerdict::Outdated => FileAction::Download,
        CacheVerdict::Unknown => if exists_on_disk {
            FileAction::HashLocal
        } else {
            FileAction::Download
        },
    }
}

/// What the per-file decision does, in terms of the cache: a listed file is
/// skipped exactly when the cache holds, for its path, a digest equal (up
/// to ASCII case) to the listed one; a file whose cached digest differs is
/// downloaded whether or not a copy is on disk; the copy on disk is hashed
/// exactly when the cache holds nothing for the path and the copy exists;
/// and a file neither cached nor on disk is downloaded.
pub proof fn lemma_file_action_laws(
    cache: Map<Seq<char>, Seq<char>>,
    path: Seq<char>,
    expected_hash: Seq<char>,
    exists_on_disk: bool,
)
    ensures
        (spec_file_action(spec_cache_verdict(cache, path, expected_hash), exists_on_disk)
            == FileAction::Skip) <==> (cache.dom().contains(path) && spec_eq_ignore_ascii_case(
            cache[path],
            expected_hash,
        )),
        (cache.dom().contains(path) && !spec_eq_ignore_ascii_case(cache[path], expected_hash))
            ==> spec_file_action(spec_cache_verdict(cache, path, expected_hash), exists_on_disk)
            == FileAction::Download,
        (spec_file_action(spec_cache_verdict(cache, path, expected_hash), exists_on_disk)
            == FileAction::HashLocal) <==> (!cache.dom().contains(path) && exists_on_disk),
        (!cache.dom().contains(path) && !exists_on_disk) ==> spec_file_action(
            spec_cache_verdict(cache, path, expected_hash),
            exists_on_disk,
        ) == FileAction::Download,
{
}

/// Records a downloaded file: its listed digest is cached for its path.
pub fn record_download(cache: &mut HashCache, info: &FileInfo)
    ensures
        final(cache)@ == old(cache)@.insert(info.path@, info.hash@),
{
    cache.insert(info.path.clone(), info.hash.clone());
}

/// How often a failed download is tried again.
pub const MAX_RETRIES: u8 = 3;

/// What to do after a download failed.
#[derive(Clone, Copy, Debug, PartialEq, Eq)]
pub enum RetryStep {
    /// No retries are left: the update fails with the download's error.
    GiveUp,
    /// Announce that `announced` more tries will be made, and try again with
    /// `remaining` retries left.
    Retry { announced: u8, remaining: u8 },
}

/// The step after a failed download with `retries` retries left.
pub open spec fn spec_after_failed_download(retries: u8) -> RetryStep {
    if retries < 1 {
        RetryStep::GiveUp
    } else {
        RetryStep::Retry { announced: retries, remaining: (retries - 1) as u8 }
    }
}

/// Decides what follows a failed download.
pub fn after_failed_download(retries: u8) -> (r: RetryStep)
    ensures
        r == spec_after_failed_download(retries),
{
    if retries < 1 {
        RetryStep::GiveUp
    } else {
        RetryStep::Retry { announced: retries, remaining: retries - 1 }
    }
}

/// The number of failed downloads of one file that are tried again when
/// every try fails, starting with `retries` retries.
pub open spec fn failures_tolerated(retries: u8) -> nat
    decreases retries,
{
    match spec_after_failed_download(retries) {
        RetryStep::GiveUp => 0,
        RetryStep::Retry { remaining, .. } => if remaining < retries {
            1 + failures_tolerated(remaining)
        } else {
            0
        },
    }
}

/// With `retries` retries, a file is downloaded at most `retries + 1` times:
/// each failure but the last is followed by a retry, which has one retry
/// less, and the update gives up once none is left.
pub proof fn lemma_retry_budget(retries: u8)
    ensures
        failures_tolerated(retries) == retries,
    decreases retries,
{
    if retries > 0 {
        lemma_retry_budget((retries - 1) as u8);
    }
}

} // verus!

verus! {

/// A failed download is given up on exactly when no retries are left;
/// otherwise the number of retries left is announced and one fewer remain.
pub proof fn lemma_after_failed_download_laws(retries: u8)
    ensures
        (spec_after_failed_download(retries) == RetryStep::GiveUp) <==> retries == 0,
        spec_after_failed_download(retries) matches RetryStep::Retry { announced, remaining }
            ==> announced == retries && remaining as int == retries as int - 1,
{
}

/// The entries of no file are the empty cache, and one more entry records
/// its digest for its path, replacing an earlier one, leaving the rest.
pub proof fn lemma_map_of_laws(e: Seq<(String, String)>, p: (String, String))
    ensures
        map_of(Seq::<(String, String)>::empty()) == Map::<Seq<char>, Seq<char>>::empty(),
        map_of(e.push(p)) == map_of(e).insert(p.0@, p.1@),
{
    assert(e.push(p).drop_last() == e);
}

} // verus!
