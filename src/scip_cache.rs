//! Validity of a cached index: the decisions taken on what was observed of
//! the index file, its metadata sidecar, the tracked sources and the lockfile.
use vstd::prelude::*;

verus! {

/// Lowercase hexadecimal digit of `d` (below 16).
pub open spec fn hex_digit(d: nat) -> char {
    if d < 10 {
        ('0' as u32 + d) as char
    } else {
        ('a' as u32 + (d - 10)) as char
    }
}

/// `n` in lowercase hexadecimal, without leading zeros.
pub open spec fn hex_of(n: nat) -> Seq<char>
    decreases n,
{
    if n < 16 {
        seq![hex_digit(n)]
    } else {
        hex_of(n / 16).push(hex_digit(n % 16))
    }
}

/// `s` preceded by as many `0` as it takes to reach `width` characters.
pub open spec fn zero_padded(s: Seq<char>, width: nat) -> Seq<char> {
    if s.len() >= width {
        s
    } else {
        Seq::new((width - s.len()) as nat, |i: int| '0') + s
    }
}

/// The fingerprint of a lockfile: its first byte, its last byte (0 for an
/// empty file) and its length, in hexadecimal of at least 2, 2 and 8 digits.
pub open spec fn fingerprint_of(bytes: Seq<u8>) -> Seq<char> {
    let first: nat = if bytes.len() > 0 { bytes[0] as nat } else { 0 };
    let last: nat = if bytes.len() > 0 { bytes.last() as nat } else { 0 };
    zero_padded(hex_of(first), 2) + zero_padded(hex_of(last), 2) + zero_padded(
        hex_of(bytes.len()),
        8,
    )
}

fn hex_digit_str(d: u64) -> (r: &'static str)
    requires
        d < 16,
    ensures
        r@ == seq![hex_digit(d as nat)],
{
    proof {
        reveal_strlit("0");
        reveal_strlit("1");
        reveal_strlit("2");
        reveal_strlit("3");
        reveal_strlit("4");
        reveal_strlit("5");
        reveal_strlit("6");
        reveal_strlit("7");
        reveal_strlit("8");
        reveal_strlit("9");
        reveal_strlit("a");
        reveal_strlit("b");
        reveal_strlit("c");
        reveal_strlit("d");
        reveal_strlit("e");
        reveal_strlit("f");
    }
    let r = match d {
        0 => "0",
        1 => "1",
        2 => "2",
        3 => "3",
        4 => "4",
        5 => "5",
        6 => "6",
        7 => "7",
        8 => "8",
        9 => "9",
        10 => "a",
        11 => "b",
        12 => "c",
        13 => "d",
        14 => "e",
        _ => "f",
    };
    assert(r@ =~= seq![hex_digit(d as nat)]);
    r
}

fn hex_len(n: u64) -> (r: usize)
    ensures
        r == hex_of(n as nat).len(),
        r <= 16,
    decreases n,
{
    proof {
        reveal_with_fuel(pow16, 17);
        assert(pow16(16) == 0x1_0000_0000_0000_0000);
        lemma_hex_len_small(n as nat, 16);
    }
    if n < 16 {
        1
    } else {
        let k = hex_len(n / 16);
        k + 1
    }
}

proof fn lemma_hex_len_small(n: nat, k: nat)
    requires
        k >= 1,
        n < pow16(k),
    ensures
        hex_of(n).len() <= k,
    decreases n,
{
    if n >= 16 {
        assert(k >= 2) by {
            if k == 1 {
                assert(pow16(1) == 16 * pow16(0));
            }
        }
        assert(pow16(k) == 16 * pow16((k - 1) as nat));
        assert(n / 16 < pow16((k - 1) as nat)) by (nonlinear_arith)
            requires
                n < 16 * pow16((k - 1) as nat),
        ;
        lemma_hex_len_small(n / 16, (k - 1) as nat);
    }
}

spec fn pow16(k: nat) -> nat
    decreases k,
{
    if k == 0 {
        1
    } else {
        16 * pow16((k - 1) as nat)
    }
}

fn append_hex(out: &mut String, n: u64)
    ensures
        final(out)@ == old(out)@ + hex_of(n as nat),
    decreases n,
{
    if n >= 16 {
        append_hex(out, n / 16);
    }
    out.append(hex_digit_str(n % 16));
    proof {
        if n >= 16 {
            assert(old(out)@ + hex_of(n as nat) =~= old(out)@ + hex_of((n / 16) as nat) + seq![
                hex_digit((n % 16) as nat),
            ]);
        } else {
            assert(n % 16 == n);
        }
    }
}

fn append_padded_hex(out: &mut String, n: u64, width: usize)
    ensures
        final(out)@ == old(out)@ + zero_padded(hex_of(n as nat), width as nat),
{
    proof {
        reveal_strlit("0");
    }
    let len = hex_len(n);
    let mut pad: usize = 0;
    let ghost start = out@;
    while len + pad < width
        invariant
            len == hex_of(n as nat).len(),
            len + pad <= width || pad == 0,
            out@ == start + Seq::new(pad as nat, |i: int| '0'),
        decreases width - pad,
    {
        out.append("0");
        proof {
            reveal_strlit("0");
        }
        assert(Seq::new(pad as nat, |i: int| '0').push('0') =~= Seq::new((pad + 1) as nat, |i: int| '0'));
        pad = pad + 1;
    }
    append_hex(out, n);
    proof {
        if len >= width {
            assert(pad == 0);
            assert(Seq::new(0, |i: int| '0') + hex_of(n as nat) =~= hex_of(n as nat));
            assert(start + Seq::new(0, |i: int| '0') =~= start);
        } else {
            assert(pad == width - len);
        }
        assert(out@ =~= start + zero_padded(hex_of(n as nat), width as nat));
    }
}

/// The fingerprint of a lockfile's contents.
pub fn lockfile_fingerprint(contents: &[u8]) -> (r: String)
    ensures
        r@ == fingerprint_of(contents@),
{
    let first: u8 = if contents.len() > 0 { contents[0] } else { 0 };
    let last: u8 = if contents.len() > 0 { contents[contents.len() - 1] } else { 0 };
    let mut out = String::new();
    append_padded_hex(&mut out, first as u64, 2);
    append_padded_hex(&mut out, last as u64, 2);
    append_padded_hex(&mut out, contents.len() as u64, 8);
    assert(out@ =~= fingerprint_of(contents@));
    out
}

/// The format version that this library writes and accepts.
pub const CURRENT_VERSION: u32 = 1;

/// What the sidecar of a cached index records.
#[derive(Debug)]
pub struct ScipCacheMetadata {
    /// Format version of the sidecar.
    pub version: u32,
    /// Unix time, in seconds, at which the index was recorded.
    pub created_at: u64,
    /// Each tracked source file with its modification time (unix seconds),
    /// at most one entry per path.
    pub source_files: Vec<(String, u64)>,
    /// Fingerprint of the lockfile, where there was one.
    pub cargo_lock_hash: Option<String>,
}

/// The optional string as plain characters.
pub open spec fn opt_view(o: Option<String>) -> Option<Seq<char>> {
    match o {
        Some(s) => Some(s@),
        None => None,
    }
}

/// The recorded modification time of each tracked path of `files`, given
/// the time observed for each (`None` where it could not be read): a path
/// whose time was read is recorded, with the last time read for it.
pub open spec fn recorded_times(files: Seq<Seq<char>>, times: Seq<Option<u64>>) -> Map<
    Seq<char>,
    u64,
>
    decreases files.len(),
{
    if files.len() == 0 || times.len() == 0 {
        Map::empty()
    } else {
        let before = recorded_times(files.drop_last(), times.drop_last());
        match times.last() {
            Some(t) => before.insert(files.last(), t),
            None => before,
        }
    }
}

/// The entries of a recorded list, as plain values.
pub open spec fn entry_views(v: Seq<(String, u64)>) -> Seq<(Seq<char>, u64)> {
    v.map_values(|e: (String, u64)| (e.0@, e.1))
}

/// The entries name each path at most once and describe exactly the map `times`.
pub open spec fn entries_record(e: Seq<(Seq<char>, u64)>, times: Map<Seq<char>, u64>) -> bool {
    &&& forall|i: int, j: int| 0 <= i < j < e.len() ==> (#[trigger] e[i]).0 != (#[trigger] e[j]).0
    &&& forall|k: Seq<char>|
        times.contains_key(k) <==> exists|i: int| 0 <= i < e.len() && (#[trigger] e[i]).0 == k
    &&& forall|i: int| 0 <= i < e.len() ==> times[(#[trigger] e[i]).0] == e[i].1
}

proof fn lemma_record_update(
    e: Seq<(Seq<char>, u64)>,
    times: Map<Seq<char>, u64>,
    j: int,
    k: Seq<char>,
    t: u64,
)
    requires
        entries_record(e, times),
        0 <= j <= e.len(),
        j < e.len() ==> e[j].0 == k,
        j == e.len() ==> forall|m: int| 0 <= m < e.len() ==> e[m].0 != k,
    ensures
        entries_record(
            if j < e.len() {
                e.update(j, (k, t))
            } else {
                e.push((k, t))
            },
            times.insert(k, t),
        ),
{
    let after = if j < e.len() {
        e.update(j, (k, t))
    } else {
        e.push((k, t))
    };
    let now = times.insert(k, t);
    assert forall|k2: Seq<char>|
        now.contains_key(k2) <==> exists|i: int| 0 <= i < after.len() && (#[trigger] after[i]).0 == k2 by {
        if k2 == k {
            assert(after[j].0 == k2);
        } else if now.contains_key(k2) {
            let i = choose|i: int| 0 <= i < e.len() && (#[trigger] e[i]).0 == k2;
            assert(after[i] == e[i]);
        }
        if exists|i: int| 0 <= i < after.len() && (#[trigger] after[i]).0 == k2 {
            let i = choose|i: int| 0 <= i < after.len() && (#[trigger] after[i]).0 == k2;
            if i != j {
                assert(after[i] == e[i]);
            }
        }
    }
    assert forall|i: int| 0 <= i < after.len() implies now[(#[trigger] after[i]).0] == after[i].1 by {
        if i != j {
            assert(after[i] == e[i]);
        }
    }
    assert forall|a: int, b: int| 0 <= a < b < after.len() implies (#[trigger] after[a]).0 != (
    #[trigger] after[b]).0 by {
        if a != j && b != j {
            assert(after[a] == e[a] && after[b] == e[b]);
        } else if a == j {
            assert(after[b] == e[b]);
        } else {
            assert(after[a] == e[a]);
        }
    }
}

impl ScipCacheMetadata {
    /// The recorded entries describe exactly the map `times`, one entry per path.
    pub open spec fn records(&self, times: Map<Seq<char>, u64>) -> bool {
        entries_record(entry_views(self.source_files@), times)
    }

    /// The metadata recorded for an index generated now: the current
    /// version, the creation time, the modification time of each tracked
    /// file that could be read (`mtimes[i]` is that of `files[i]`) and the
    /// lockfile fingerprint.
    pub fn snapshot(
        files: &Vec<String>,
        mtimes: &Vec<Option<u64>>,
        created_at: u64,
        cargo_lock_hash: Option<String>,
    ) -> (r: ScipCacheMetadata)
        requires
            files.len() == mtimes.len(),
        ensures
            r.version == CURRENT_VERSION,
            r.created_at == created_at,
            opt_view(r.cargo_lock_hash) == opt_view(cargo_lock_hash),
            r.records(recorded_times(files@.map_values(|f: String| f@), mtimes@)),
    {
        let ghost fv = files@.map_values(|f: String| f@);
        let mut entries: Vec<(String, u64)> = Vec::new();
        let mut i: usize = 0;
        assert(entry_views(entries@) =~= Seq::<(Seq<char>, u64)>::empty());
        assert(recorded_times(fv.take(0), mtimes@.take(0)) =~= Map::<Seq<char>, u64>::empty());
        while i < files.len()
            invariant
                i <= files.len(),
                files.len() == mtimes.len(),
                fv == files@.map_values(|f: String| f@),
                entries_record(
                    entry_views(entries@),
                    recorded_times(fv.take(i as int), mtimes@.take(i as int)),
                ),
            decreases files.len() - i,
        {
            let ghost before = entry_views(entries@);
            let ghost prev = recorded_times(fv.take(i as int), mtimes@.take(i as int));
            assert(fv.take(i + 1).drop_last() =~= fv.take(i as int));
            assert(mtimes@.take(i + 1).drop_last() =~= mtimes@.take(i as int));
            if let Some(t) = mtimes[i] {
                let mut j: usize = 0;
                while j < entries.len() && !(entries[j].0 == files[i])
                    invariant
                        j <= entries.len(),
                        i < files.len(),
                        before == entry_views(entries@),
                        fv == files@.map_values(|f: String| f@),
                        forall|m: int| 0 <= m < j ==> before[m].0 != fv[i as int],
                    decreases entries.len() - j,
                {
                    j = j + 1;
                }
                proof {
                    lemma_record_update(before, prev, j as int, fv[i as int], t);
                }
                let entry = (files[i].clone(), t);
                if j < entries.len() {
                    entries.set(j, entry);
                    assert(entry_views(entries@) =~= before.update(j as int, (fv[i as int], t)));
                } else {
                    entries.push(entry);
                    assert(entry_views(entries@) =~= before.push((fv[i as int], t)));
                }
            } else {
                assert(recorded_times(fv.take(i + 1), mtimes@.take(i + 1)) == prev);
            }
            i = i + 1;
        }
        assert(fv.take(i as int) =~= fv);
        assert(mtimes@.take(i as int) =~= mtimes@);
        ScipCacheMetadata { version: CURRENT_VERSION, created_at, source_files: entries, cargo_lock_hash }
    }
}

/// `name` appended to the directory path `base`, with one separator between.
pub open spec fn joined(base: Seq<char>, name: Seq<char>) -> Seq<char> {
    if base.len() == 0 || base.last() == '/' {
        base + name
    } else {
        base + seq!['/'] + name
    }
}

/// The path of the entry `name` inside the directory `base`.
pub fn join_path(base: &str, name: &str) -> (r: String)
    ensures
        r@ == joined(base@, name@),
{
    let mut out = String::from_str(base);
    let n = base.unicode_len();
    if n > 0 && base.get_char(n - 1) != '/' {
        out.append("/");
        proof {
            reveal_strlit("/");
        }
        assert(out@ =~= base@ + seq!['/']);
    }
    out.append(name);
    out
}

/// Where a cached index stands.
#[derive(Debug, Clone, Copy, PartialEq, Eq)]
pub enum CacheState {
    /// The index or its sidecar is missing.
    Absent,
    /// Both exist, but something they were recorded against has changed.
    Stale,
    /// The index can be used as it is.
    Valid,
}

/// What was observed of a cache's artifacts and inputs.
#[derive(Debug)]
pub struct CacheObservation {
    /// The index file exists.
    pub index_exists: bool,
    /// The sidecar file exists.
    pub meta_exists: bool,
    /// The sidecar's contents, `None` where it could not be read or parsed.
    pub metadata: Option<ScipCacheMetadata>,
    /// The current modification time of each path the sidecar records, in
    /// its order; `None` where the file is gone or unreadable.
    pub source_mtimes: Vec<Option<u64>>,
    /// The fingerprint of the lockfile as it is now, `None` where there is none.
    pub lockfile_hash: Option<String>,
}

/// Every recorded source file is still there with exactly its recorded time.
pub open spec fn sources_unchanged(meta: ScipCacheMetadata, current: Seq<Option<u64>>) -> bool {
    &&& current.len() == meta.source_files.len()
    &&& forall|i: int|
        0 <= i < current.len() ==> #[trigger] current[i] == Some(meta.source_files@[i].1)
}

/// Where the cache stands, given what was observed.
pub open spec fn assessment(obs: CacheObservation) -> CacheState {
    if !obs.index_exists || !obs.meta_exists {
        CacheState::Absent
    } else {
        match obs.metadata {
            None => CacheState::Stale,
            Some(m) => if m.version == CURRENT_VERSION && sources_unchanged(m, obs.source_mtimes@)
                && opt_view(m.cargo_lock_hash) == opt_view(obs.lockfile_hash) {
                CacheState::Valid
            } else {
                CacheState::Stale
            },
        }
    }
}

/// The cache of a generated index inside one workspace directory.
pub struct ScipCache {
    workspace_root: String,
    index_path: String,
    meta_path: String,
}

impl ScipCache {
    /// The workspace directory.
    pub closed spec fn root_view(&self) -> Seq<char> {
        self.workspace_root@
    }

    /// The path of the cached index.
    pub closed spec fn index_path_view(&self) -> Seq<char> {
        self.index_path@
    }

    /// The path of the sidecar.
    pub closed spec fn meta_path_view(&self) -> Seq<char> {
        self.meta_path@
    }

    /// The cache of the workspace directory `workspace_root`: the index is
    /// `index.scip` there, its sidecar `index.scip.meta`.
    pub fn new(workspace_root: &str) -> (r: ScipCache)
        ensures
            r.root_view() == workspace_root@,
            r.index_path_view() == joined(workspace_root@, "index.scip"@),
            r.meta_path_view() == joined(workspace_root@, "index.scip.meta"@),
    {
        ScipCache {
            workspace_root: String::from_str(workspace_root),
            index_path: join_path(workspace_root, "index.scip"),
            meta_path: join_path(workspace_root, "index.scip.meta"),
        }
    }

    /// The path of the cached index.
    pub fn index_path(&self) -> (r: &str)
        ensures
            r@ == self.index_path_view(),
    {
        self.index_path.as_str()
    }

    /// The path of the sidecar.
    pub fn meta_path(&self) -> (r: &str)
        ensures
            r@ == self.meta_path_view(),
    {
        self.meta_path.as_str()
    }

    /// The path of the workspace lockfile.
    pub fn lockfile_path(&self) -> (r: String)
        ensures
            r@ == joined(self.root_view(), "Cargo.lock"@),
    {
        join_path(self.workspace_root.as_str(), "Cargo.lock")
    }

    /// The fingerprint of the lockfile, given its contents where it exists.
    pub fn compute_cargo_lock_hash(lockfile: Option<&[u8]>) -> (r: Option<String>)
        ensures
            match lockfile {
                Some(b) => r is Some && r->Some_0@ == fingerprint_of(b@),
                None => r is None,
            },
    {
        match lockfile {
            Some(b) => Some(lockfile_fingerprint(b)),
            None => None,
        }
    }

    /// Whether every recorded source file still has its recorded time.
    pub fn validate_source_files(meta: &ScipCacheMetadata, current_mtimes: &Vec<Option<u64>>) -> (r:
        bool)
        ensures
            r == sources_unchanged(*meta, current_mtimes@),
    {
        if current_mtimes.len() != meta.source_files.len() {
            return false;
        }
        let mut i: usize = 0;
        while i < current_mtimes.len()
            invariant
                i <= current_mtimes.len(),
                current_mtimes.len() == meta.source_files.len(),
                forall|j: int| 0 <= j < i ==> #[trigger] current_mtimes@[j] == Some(meta.source_files@[j].1),
            decreases current_mtimes.len() - i,
        {
            match current_mtimes[i] {
                Some(t) => {
                    if t != meta.source_files[i].1 {
                        return false;
                    }
                },
                None => {
                    return false;
                },
            }
            i = i + 1;
        }
        true
    }

    /// Whether the lockfile fingerprint is the recorded one.
    pub fn validate_cargo_lock(meta: &ScipCacheMetadata, current_hash: &Option<String>) -> (r: bool)
        ensures
            r == (opt_view(meta.cargo_lock_hash) == opt_view(*current_hash)),
    {
        match (&meta.cargo_lock_hash, current_hash) {
            (Some(a), Some(b)) => *a == *b,
            (None, None) => true,
            _ => false,
        }
    }

    /// Where the cache stands, given what was observed.
    pub fn assess(&self, obs: &CacheObservation) -> (r: CacheState)
        ensures
            r == assessment(*obs),
    {
        if !obs.index_exists || !obs.meta_exists {
            return CacheState::Absent;
        }
        match &obs.metadata {
            None => CacheState::Stale,
            Some(m) => {
                if m.version == CURRENT_VERSION && Self::validate_source_files(m, &obs.source_mtimes)
                    && Self::validate_cargo_lock(m, &obs.lockfile_hash) {
                    CacheState::Valid
                } else {
                    CacheState::Stale
                }
            },
        }
    }

    /// The path of the cached index where it can be used as it is.
    pub fn get_valid_cache(&self, obs: &CacheObservation) -> (r: Option<String>)
        ensures
            r is Some <==> assessment(*obs) == CacheState::Valid,
            r matches Some(p) ==> p@ == self.index_path_view(),
    {
        match self.assess(obs) {
            CacheState::Valid => Some(self.index_path.clone()),
            _ => None,
        }
    }
}

/// An index whose sidecar was recorded from the modification times `mtimes`
/// of `files` is valid as long as nothing it was recorded against has
/// changed: both files are there, every recorded source still has the time
/// that was read for it, and the lockfile has its recorded fingerprint.
pub proof fn lemma_recorded_cache_is_valid(
    files: Seq<Seq<char>>,
    mtimes: Seq<Option<u64>>,
    obs: CacheObservation,
)
    requires
        obs.index_exists,
        obs.meta_exists,
        obs.metadata is Some,
        obs.metadata->Some_0.version == CURRENT_VERSION,
        obs.metadata->Some_0.records(recorded_times(files, mtimes)),
        obs.source_mtimes.len() == obs.metadata->Some_0.source_files.len(),
        forall|i: int|
            0 <= i < obs.source_mtimes.len() ==> obs.source_mtimes@[i] == Some(
                recorded_times(files, mtimes)[(#[trigger] obs.metadata->Some_0.source_files@[i]).0@],
            ),
        opt_view(obs.lockfile_hash) == opt_view(obs.metadata->Some_0.cargo_lock_hash),
    ensures
        assessment(obs) == CacheState::Valid,
{
    let m = obs.metadata->Some_0;
    let e = entry_views(m.source_files@);
    assert forall|i: int| 0 <= i < obs.source_mtimes@.len() implies #[trigger] obs.source_mtimes@[i]
        == Some(m.source_files@[i].1) by {
        assert(e[i] == (m.source_files@[i].0@, m.source_files@[i].1));
        assert(obs.source_mtimes@[i] == Some(recorded_times(files, mtimes)[m.source_files@[i].0@]));
    }
}

/// Once a recorded source file has another modification time, or is gone,
/// the cached index is no longer valid.
pub proof fn lemma_changed_source_invalidates(obs: CacheObservation, i: int)
    requires
        obs.metadata is Some,
        0 <= i < obs.metadata->Some_0.source_files.len(),
        i < obs.source_mtimes.len() ==> obs.source_mtimes@[i] != Some(
            obs.metadata->Some_0.source_files@[i].1,
        ),
    ensures
        assessment(obs) != CacheState::Valid,
{
    if i < obs.source_mtimes.len() {
        assert(obs.source_mtimes@[i] != Some(obs.metadata->Some_0.source_files@[i].1));
    }
}

/// Without the index or without its sidecar there is no valid cache.
pub proof fn lemma_missing_artifact_is_absent(obs: CacheObservation)
    requires
        !obs.index_exists || !obs.meta_exists,
    ensures
        assessment(obs) == CacheState::Absent,
{
}

} // verus!
