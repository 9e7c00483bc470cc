//! Where the on-disk cache of a repository lives, what identifies its
//! contents, and which of its rows stay valid as files change.

use vstd::prelude::*;
use vstd::utf8::encode_utf8;
use crate::lexical::{
    components, external_to_repo, is_plain_piece, joined, lemma_components_joined, parent_of,
    path_is_external_to_repo, path_join, path_parent, path_starts_with,
};
use crate::text::chars_of;
use crate::paths::range_is;
use vstd::string::StringSliceAdditionalSpecFns;

verus! {

/// The version of the cache's table layout.
pub const CACHE_SCHEMA_VERSION: i32 = 2;

/// Files, other than sources, whose changes invalidate the cache: their
/// names in the repository.
pub open spec fn is_manifest_name(p: Seq<char>) -> bool {
    p == ".semrc"@ || p == ".gitattributes"@
}

/// The keys under which the cache records those files. They start with a
/// NUL character, so they cannot collide with a path git reports.
pub open spec fn is_manifest_key(p: Seq<char>) -> bool {
    p == "\0sem-manifest:.semrc"@ || p == "\0sem-manifest:.gitattributes"@
}

/// The cache keys of manifest files start with NUL, which no path that git
/// reports holds, so they never collide with the key of a source file; and
/// no manifest key is a manifest name.
pub proof fn manifest_keys_start_with_nul(p: Seq<char>)
    ensures
        is_manifest_key(p) ==> p.len() > 0 && p[0] == '\0' && !is_manifest_name(p),
{
    reveal_strlit("\0sem-manifest:.semrc");
    reveal_strlit("\0sem-manifest:.gitattributes");
    reveal_strlit(".semrc");
    reveal_strlit(".gitattributes");
    if is_manifest_key(p) {
        assert(".semrc"@[0] != '\0');
        assert(".gitattributes"@[0] != '\0');
    }
}

/// Each manifest file's name and cache key, in the order they are hashed.
pub fn cache_manifest_files() -> (r: Vec<(&'static str, &'static str)>)
    ensures
        r@.len() == 2,
        r@[0].0@ == ".semrc"@,
        r@[0].1@ == "\0sem-manifest:.semrc"@,
        r@[1].0@ == ".gitattributes"@,
        r@[1].1@ == "\0sem-manifest:.gitattributes"@,
{
    let mut v = Vec::new();
    v.push((".semrc", "\0sem-manifest:.semrc"));
    v.push((".gitattributes", "\0sem-manifest:.gitattributes"));
    v
}

/// Whether `path` is the cache key of a manifest file.
pub fn is_cache_manifest_key(path: &str) -> (r: bool)
    ensures
        r == is_manifest_key(path@),
{
    let v = chars_of(path);
    assert(v@.subrange(0, v@.len() as int) == v@);
    range_is(&v, 0, v.len(), "\0sem-manifest:.semrc") || range_is(
        &v,
        0,
        v.len(),
        "\0sem-manifest:.gitattributes",
    )
}

/// Whether `path` is the name of a manifest file.
pub fn is_manifest_file_name(path: &str) -> (r: bool)
    ensures
        r == is_manifest_name(path@),
{
    let v = chars_of(path);
    assert(v@.subrange(0, v@.len() as int) == v@);
    range_is(&v, 0, v.len(), ".semrc") || range_is(&v, 0, v.len(), ".gitattributes")
}

/// The number of files among `files[..n]` that are not manifest files.
pub open spec fn sources_below(files: Seq<String>, n: int) -> nat
    decreases n,
{
    if n <= 0 {
        0
    } else {
        sources_below(files, n - 1) + if is_manifest_name(files[n - 1]@) {
            0nat
        } else {
            1nat
        }
    }
}

/// The number of source files in `files`: those that are not manifest files.
pub fn source_file_count(files: &[String]) -> (r: usize)
    ensures
        r == sources_below(files@, files@.len() as int),
{
    let mut n: usize = 0;
    let mut i: usize = 0;
    while i < files.len()
        invariant
            i <= files@.len(),
            n == sources_below(files@, i as int),
            n <= i,
        decreases files@.len() - i,
    {
        if !is_manifest_file_name(files[i].as_str()) {
            n += 1;
        }
        i += 1;
    }
    n
}

/// What is known of one manifest file: whether it exists, the mtime the
/// cache recorded for it, and its mtime now (none when it cannot be read).
pub struct ManifestState {
    pub exists: bool,
    pub cached: Option<(i64, i64)>,
    pub current: Option<(i64, i64)>,
}

/// A manifest file is stale when it appeared, disappeared, cannot be read,
/// or changed its mtime since the cache recorded it.
pub open spec fn manifest_entry_stale(m: ManifestState) -> bool {
    match (m.exists, m.cached) {
        (true, None) => true,
        (false, Some(_)) => true,
        (false, None) => false,
        (true, Some(c)) => match m.current {
            Some(cur) => c != cur,
            None => true,
        },
    }
}

/// Whether any manifest file is stale.
pub fn manifest_is_stale(states: &[ManifestState]) -> (r: bool)
    ensures
        r == exists|k: int| 0 <= k < states@.len() && manifest_entry_stale(#[trigger] states@[k]),
{
    let mut i: usize = 0;
    while i < states.len()
        invariant
            i <= states@.len(),
            forall|k: int| 0 <= k < i ==> !manifest_entry_stale(#[trigger] states@[k]),
        decreases states@.len() - i,
    {
        let m = &states[i];
        let stale = match (m.exists, m.cached) {
            (true, None) => true,
            (false, Some(_)) => true,
            (false, None) => false,
            (true, Some(c)) => match m.current {
                Some(cur) => c.0 != cur.0 || c.1 != cur.1,
                None => true,
            },
        };
        if stale {
            assert(manifest_entry_stale(states@[i as int]));
            return true;
        }
        i += 1;
    }
    false
}

// ---------------------------------------------------------------------------
// Repository keys

/// FNV-1a, 64 bits, over `bytes[..n]`.
pub open spec fn fnv1a_below(bytes: Seq<u8>, n: int) -> u64
    decreases n,
{
    if n <= 0 {
        0xcbf29ce484222325u64
    } else {
        (((fnv1a_below(bytes, n - 1) ^ (bytes[n - 1] as u64)) as nat * 0x100000001b3nat)
            % 0x1_0000_0000_0000_0000nat) as u64
    }
}

/// The lower-case hexadecimal digit of `d`.
pub open spec fn hex_char(d: nat) -> char {
    if d < 10 {
        crate::date::digit_char(d)
    } else if d == 10 {
        'a'
    } else if d == 11 {
        'b'
    } else if d == 12 {
        'c'
    } else if d == 13 {
        'd'
    } else if d == 14 {
        'e'
    } else {
        'f'
    }
}

/// The last `n` hexadecimal digits of `h`, zero-padded.
pub open spec fn hex_digits(h: nat, n: nat) -> Seq<char>
    decreases n,
{
    if n == 0 {
        seq![]
    } else {
        hex_digits(h / 16, (n - 1) as nat) + seq![hex_char(h % 16)]
    }
}

fn hex_str(d: u64) -> (r: &'static str)
    requires
        d < 16,
    ensures
        r@ == seq![hex_char(d as nat)],
{
    proof {
        reveal_strlit("0");
        reveal_strlit("1");
        reveal_strlit("2");
        reveal_strlit("3");
        reveal_strlit("4");
        reveal_strlit("5");
        reveal_strlit("6");
        reveal_strlit("7");
        reveal_strlit("8");
        reveal_strlit("9");
        reveal_strlit("a");
        reveal_strlit("b");
        reveal_strlit("c");
        reveal_strlit("d");
        reveal_strlit("e");
        reveal_strlit("f");
    }
    if d == 0 {
        "0"
    } else if d == 1 {
        "1"
    } else if d == 2 {
        "2"
    } else if d == 3 {
        "3"
    } else if d == 4 {
        "4"
    } else if d == 5 {
        "5"
    } else if d == 6 {
        "6"
    } else if d == 7 {
        "7"
    } else if d == 8 {
        "8"
    } else if d == 9 {
        "9"
    } else if d == 10 {
        "a"
    } else if d == 11 {
        "b"
    } else if d == 12 {
        "c"
    } else if d == 13 {
        "d"
    } else if d == 14 {
        "e"
    } else {
        "f"
    }
}

fn push_hex_digits(s: &mut String, h: u64, n: u32)
    ensures
        final(s)@ == old(s)@ + hex_digits(h as nat, n as nat),
    decreases n,
{
    if n > 0 {
        push_hex_digits(s, h / 16, n - 1);
        s.append(hex_str(h % 16));
    }
}

/// The FNV-1a hash of the UTF-8 encoding of `path`, as 16 lower-case
/// hexadecimal digits.
pub open spec fn repo_key(path: Seq<char>) -> Seq<char> {
    let bytes = encode_utf8(path);
    hex_digits(fnv1a_below(bytes, bytes.len() as int) as nat, 16)
}

/// Lower-case hexadecimal digits.
pub open spec fn is_hex_digit(c: char) -> bool {
    ('0' <= c && c <= '9') || ('a' <= c && c <= 'f')
}

proof fn lemma_hex_digits(h: nat, n: nat)
    ensures
        hex_digits(h, n).len() == n,
        forall|i: int| 0 <= i < n ==> is_hex_digit(#[trigger] hex_digits(h, n)[i]),
    decreases n,
{
    if n > 0 {
        lemma_hex_digits(h / 16, (n - 1) as nat);
        let d = h % 16;
        assert(is_hex_digit(hex_char(d)));
        let s = hex_digits(h, n);
        assert forall|i: int| 0 <= i < n implies is_hex_digit(#[trigger] s[i]) by {
            if i < n - 1 {
                assert(s[i] == hex_digits(h / 16, (n - 1) as nat)[i]);
            }
        }
    }
}

/// A repository's key is always sixteen lower-case hexadecimal digits, so
/// it names one directory under the cache root.
pub proof fn repo_keys_are_sixteen_hex_digits(path: Seq<char>)
    ensures
        repo_key(path).len() == 16,
        forall|i: int| 0 <= i < 16 ==> is_hex_digit(#[trigger] repo_key(path)[i]),
{
    let bytes = encode_utf8(path);
    lemma_hex_digits(fnv1a_below(bytes, bytes.len() as int) as nat, 16);
}

/// The key of a repository's cache directory: the FNV-1a hash of its
/// canonical path's UTF-8 bytes, as 16 lower-case hexadecimal digits.
pub fn repo_cache_key(canonical_repo_path: &str) -> (r: String)
    ensures
        r@ == repo_key(canonical_repo_path@),
{
    let bytes = canonical_repo_path.as_bytes();
    let mut hash: u64 = 0xcbf29ce484222325u64;
    let mut i: usize = 0;
    while i < bytes.len()
        invariant
            bytes@ == canonical_repo_path.spec_bytes(),
            i <= bytes@.len(),
            hash == fnv1a_below(bytes@, i as int),
        decreases bytes@.len() - i,
    {
        hash = (hash ^ (bytes[i] as u64)).wrapping_mul(0x100000001b3u64);
        i += 1;
    }
    let mut out = String::new();
    push_hex_digits(&mut out, hash, 16);
    out
}


// ---------------------------------------------------------------------------
// Where a repository's cache lives

/// A directory that could hold the caches of all repositories: its
/// absolute, lexically normalised form, and that form with its existing
/// prefix resolved through the file system.
pub struct CacheCandidate {
    pub lexical: String,
    pub resolved: String,
}

/// What the environment and the file system say about a repository and the
/// places its cache could go, in order of preference.
pub struct CacheSite {
    /// The repository root, absolute and lexically normalised.
    pub repo_lexical: String,
    /// `repo_lexical` with its existing prefix resolved.
    pub repo_resolved: String,
    /// The repository root as the file system canonicalises it (or its
    /// absolute form where that fails); its text keys the cache directory.
    pub repo_canonical: String,
    /// The candidate cache roots, preferred first, fallbacks last.
    pub candidates: Vec<CacheCandidate>,
}

/// The index of the first candidate from `i` on that lies outside the
/// repository.
pub open spec fn first_external_from(site: CacheSite, i: int) -> Option<int>
    decreases site.candidates@.len() - i,
{
    if i < 0 || i >= site.candidates@.len() {
        None
    } else if external_to_repo(
        site.candidates@[i].lexical@,
        site.candidates@[i].resolved@,
        site.repo_lexical@,
        site.repo_resolved@,
    ) {
        Some(i)
    } else {
        first_external_from(site, i + 1)
    }
}

pub proof fn lemma_first_external_from(site: CacheSite, i: int)
    ensures
        first_external_from(site, i) matches Some(k) ==> 0 <= i <= k < site.candidates@.len()
            && external_to_repo(
            site.candidates@[k].lexical@,
            site.candidates@[k].resolved@,
            site.repo_lexical@,
            site.repo_resolved@,
        ),
    decreases site.candidates@.len() - i,
{
    if 0 <= i < site.candidates@.len() {
        lemma_first_external_from(site, i + 1);
    }
}

/// The cache root: the resolved form of the first candidate outside the
/// repository, if any.
pub open spec fn cache_root_of(site: CacheSite) -> Option<Seq<char>> {
    match first_external_from(site, 0) {
        Some(k) => Some(site.candidates@[k].resolved@),
        None => None,
    }
}

/// The cache directory of the repository: its key under the cache root.
pub open spec fn cache_dir_of(site: CacheSite) -> Option<Seq<char>> {
    match cache_root_of(site) {
        Some(root) => Some(joined(root, repo_key(site.repo_canonical@))),
        None => None,
    }
}

proof fn lemma_prefix_of_pushed(a: Seq<Seq<char>>, k: Seq<char>, b: Seq<Seq<char>>)
    requires
        !(b.len() <= a.len() && a.take(b.len() as int) == b),
    ensures
        b.len() <= a.push(k).len() && a.push(k).take(b.len() as int) == b ==> b == a.push(k),
{
    if b.len() <= a.push(k).len() && a.push(k).take(b.len() as int) == b {
        if b.len() <= a.len() {
            assert(a.push(k).take(b.len() as int) =~= a.take(b.len() as int));
        } else {
            assert(a.push(k).take(b.len() as int) =~= a.push(k));
        }
    }
}

/// The cache directory lies outside the repository. The root it sits
/// under is outside both forms of the repository's path; the directory is
/// that root with the repository's key as one more component; so it lies
/// within a form of the repository's path only where it is that very
/// directory, a repository named by its own key under the root.
pub proof fn cache_dir_lies_outside_repo(site: CacheSite)
    ensures
        cache_root_of(site) matches Some(root) ==> !path_starts_with(root, site.repo_lexical@)
            && !path_starts_with(root, site.repo_resolved@),
        cache_dir_of(site) matches Some(dir) ==> {
            &&& components(dir) == components(cache_root_of(site).unwrap()).push(
                repo_key(site.repo_canonical@),
            )
            &&& path_starts_with(dir, site.repo_lexical@) ==> components(site.repo_lexical@)
                == components(dir)
            &&& path_starts_with(dir, site.repo_resolved@) ==> components(site.repo_resolved@)
                == components(dir)
        },
{
    lemma_first_external_from(site, 0);
    if let Some(k) = first_external_from(site, 0) {
        let root = site.candidates@[k].resolved@;
        let key = repo_key(site.repo_canonical@);
        repo_keys_are_sixteen_hex_digits(site.repo_canonical@);
        assert(is_plain_piece(key)) by {
            assert forall|i: int| 0 <= i < key.len() implies key[i] != '/' by {
                assert(is_hex_digit(key[i]));
            }
            assert(key.len() != seq!['.'].len());
        }
        lemma_components_joined(root, key);
        lemma_prefix_of_pushed(components(root), key, components(site.repo_lexical@));
        lemma_prefix_of_pushed(components(root), key, components(site.repo_resolved@));
    }
}

proof fn lemma_first_external_same_components(a: CacheSite, b: CacheSite, i: int)
    requires
        components(a.repo_lexical@) == components(b.repo_lexical@),
        components(a.repo_resolved@) == components(b.repo_resolved@),
        a.candidates@ == b.candidates@,
    ensures
        first_external_from(a, i) == first_external_from(b, i),
    decreases a.candidates@.len() - i,
{
    if 0 <= i < a.candidates@.len() {
        lemma_first_external_same_components(a, b, i + 1);
    }
}

/// A repository root and that root joined with `.` have the same cache
/// directory, whether or not their paths were normalised first: appending
/// `/.` changes no component of either form of the path, and the canonical
/// form that keys the directory is the same for both.
pub proof fn cache_dir_same_for_root_and_root_dot(site: CacheSite, dotted: CacheSite)
    requires
        site.repo_lexical@.len() > 0,
        site.repo_resolved@.len() > 0,
        dotted.repo_lexical@ == site.repo_lexical@ + seq!['/', '.'],
        dotted.repo_resolved@ == site.repo_resolved@ + seq!['/', '.'],
        dotted.repo_canonical@ == site.repo_canonical@,
        dotted.candidates@ == site.candidates@,
    ensures
        cache_root_of(dotted) == cache_root_of(site),
        cache_dir_of(dotted) == cache_dir_of(site),
{
    crate::lexical::trailing_dot_changes_nothing(site.repo_lexical@);
    crate::lexical::trailing_dot_changes_nothing(site.repo_resolved@);
    lemma_first_external_same_components(site, dotted, 0);
}

/// The directory that holds the caches of all repositories: the resolved form
/// of the first candidate outside the repository.
pub fn cache_root(site: &CacheSite) -> (r: Option<String>)
    ensures
        r.is_some() == cache_root_of(*site).is_some(),
        r matches Some(d) ==> cache_root_of(*site) == Some(d@),
{
    let mut i: usize = 0;
    while i < site.candidates.len()
        invariant
            i <= site.candidates@.len(),
            first_external_from(*site, 0) == first_external_from(*site, i as int),
        decreases site.candidates@.len() - i,
    {
        let c = &site.candidates[i];
        if path_is_external_to_repo(
            c.lexical.as_str(),
            c.resolved.as_str(),
            site.repo_lexical.as_str(),
            site.repo_resolved.as_str(),
        ) {
            return Some(c.resolved.clone());
        }
        i += 1;
    }
    None
}

/// The directory that holds the repository's cache, or `None` where every
/// candidate lies inside the repository.
pub fn cache_dir_for_repo(site: &CacheSite) -> (r: Option<String>)
    ensures
        r.is_some() == cache_dir_of(*site).is_some(),
        r matches Some(d) ==> cache_dir_of(*site) == Some(d@),
{
    match cache_root(site) {
        Some(root) => {
            let key = repo_cache_key(site.repo_canonical.as_str());
            Some(path_join(root.as_str(), key.as_str()))
        },
        None => None,
    }
}

/// The cache database of the repository: `cache.db` in its cache directory.
pub fn cache_db_path(site: &CacheSite) -> (r: Option<String>)
    ensures
        r.is_some() == cache_dir_of(*site).is_some(),
        r matches Some(d) ==> Some(joined(cache_dir_of(*site).unwrap(), "cache.db"@)) == Some(d@),
{
    match cache_dir_for_repo(site) {
        Some(dir) => Some(path_join(dir.as_str(), "cache.db")),
        None => None,
    }
}


// ---------------------------------------------------------------------------
// Candidate cache roots

/// The platform, as far as the choice of cache directories depends on it.
#[derive(PartialEq, Eq, Structural, Clone, Copy, Debug)]
pub enum Platform {
    Windows,
    MacOs,
    OtherUnix,
}

/// The environment variables that name cache directories, as read (none
/// where unset), and the directory for temporary files.
pub struct CacheEnv {
    pub sem_cache_dir: Option<String>,
    pub local_app_data: Option<String>,
    pub app_data: Option<String>,
    pub xdg_cache_home: Option<String>,
    pub home: Option<String>,
    pub user_profile: Option<String>,
    pub temp_dir: String,
}

/// The value of a variable that is set to a non-empty value.
pub open spec fn set_value(v: Option<String>) -> Option<Seq<char>> {
    match v {
        Some(s) => if s@.len() > 0 {
            Some(s@)
        } else {
            None
        },
        None => None,
    }
}

pub open spec fn either(a: Option<Seq<char>>, b: Option<Seq<char>>) -> Option<Seq<char>> {
    if a is Some {
        a
    } else {
        b
    }
}

/// `base/sem/repos`.
pub open spec fn sem_repos(base: Seq<char>) -> Seq<char> {
    joined(joined(base, "sem"@), "repos"@)
}

pub open spec fn one_if(o: Option<Seq<char>>) -> Seq<Seq<char>> {
    match o {
        Some(p) => seq![p],
        None => seq![],
    }
}

/// The candidate cache roots, preferred first: `SEM_CACHE_DIR`; then, on
/// Windows, `sem/repos` under `LOCALAPPDATA` or else `APPDATA`, elsewhere
/// under `XDG_CACHE_HOME`, and on macOS also `Library/Caches/sem/repos`
/// under `HOME`; then `.cache/sem/repos` under `HOME` or else
/// `USERPROFILE`; and last `sem/repos` under the temporary directory.
pub open spec fn root_candidates(env: CacheEnv, platform: Platform) -> Seq<Seq<char>> {
    let first = one_if(set_value(env.sem_cache_dir));
    let by_platform = if platform == Platform::Windows {
        one_if(
            match either(set_value(env.local_app_data), set_value(env.app_data)) {
                Some(p) => Some(sem_repos(p)),
                None => None,
            },
        )
    } else {
        one_if(
            match set_value(env.xdg_cache_home) {
                Some(p) => Some(sem_repos(p)),
                None => None,
            },
        ) + if platform == Platform::MacOs {
            one_if(
                match set_value(env.home) {
                    Some(h) => Some(sem_repos(joined(joined(h, "Library"@), "Caches"@))),
                    None => None,
                },
            )
        } else {
            seq![]
        }
    };
    let home = one_if(
        match either(set_value(env.home), set_value(env.user_profile)) {
            Some(h) => Some(sem_repos(joined(h, ".cache"@))),
            None => None,
        },
    );
    first + by_platform + home + seq![sem_repos(env.temp_dir@)]
}

fn set_value_exec(v: &Option<String>) -> (r: Option<&str>)
    ensures
        match set_value(*v) {
            Some(p) => r matches Some(q) && q@ == p,
            None => r is None,
        },
{
    match v {
        Some(s) => if s.as_str().unicode_len() > 0 {
            Some(s.as_str())
        } else {
            None
        },
        None => None,
    }
}

fn sem_repos_exec(base: &str) -> (r: String)
    ensures
        r@ == sem_repos(base@),
{
    let a = path_join(base, "sem");
    path_join(a.as_str(), "repos")
}

/// The candidate cache roots for `env` on `platform`, preferred first.
pub fn cache_root_candidates(env: &CacheEnv, platform: Platform) -> (r: Vec<String>)
    ensures
        r@.map_values(|s: String| s@) == root_candidates(*env, platform),
{
    let mut out: Vec<String> = Vec::new();
    if let Some(p) = set_value_exec(&env.sem_cache_dir) {
        out.push(p.to_owned());
    }
    if platform == Platform::Windows {
        let base = match set_value_exec(&env.local_app_data) {
            Some(p) => Some(p),
            None => set_value_exec(&env.app_data),
        };
        if let Some(p) = base {
            out.push(sem_repos_exec(p));
        }
    } else {
        if let Some(p) = set_value_exec(&env.xdg_cache_home) {
            out.push(sem_repos_exec(p));
        }
        if platform == Platform::MacOs {
            if let Some(h) = set_value_exec(&env.home) {
                let lib = path_join(h, "Library");
                let caches = path_join(lib.as_str(), "Caches");
                out.push(sem_repos_exec(caches.as_str()));
            }
        }
    }
    let home = match set_value_exec(&env.home) {
        Some(h) => Some(h),
        None => set_value_exec(&env.user_profile),
    };
    if let Some(h) = home {
        let dot = path_join(h, ".cache");
        out.push(sem_repos_exec(dot.as_str()));
    }
    out.push(sem_repos_exec(env.temp_dir.as_str()));
    assert(out@.map_values(|s: String| s@) =~= root_candidates(*env, platform));
    out
}

/// The fallback cache roots: `.sem-cache/repos` beside the repository, where
/// it has a parent, then `sem/repos` under the temporary directory.
pub open spec fn fallback_candidates(repo_resolved: Seq<char>, temp_dir: Seq<char>) -> Seq<Seq<char>> {
    one_if(
        match parent_of(repo_resolved) {
            Some(p) => Some(joined(joined(p, ".sem-cache"@), "repos"@)),
            None => None,
        },
    ) + seq![sem_repos(temp_dir)]
}

pub fn fallback_cache_candidates(repo_resolved: &str, temp_dir: &str) -> (r: Vec<String>)
    ensures
        r@.map_values(|s: String| s@) == fallback_candidates(repo_resolved@, temp_dir@),
{
    let mut out: Vec<String> = Vec::new();
    if let Some(p) = path_parent(repo_resolved) {
        let c = path_join(p.as_str(), ".sem-cache");
        out.push(path_join(c.as_str(), "repos"));
    }
    out.push(sem_repos_exec(temp_dir));
    assert(out@.map_values(|s: String| s@) =~= fallback_candidates(repo_resolved@, temp_dir@));
    out
}

} // verus!
