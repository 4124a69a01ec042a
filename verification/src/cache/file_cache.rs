//! The pure parts of the file-backed render cache: entry metadata and its
//! expiry, cache keys, entry paths, the size limit and the eviction order.
use vstd::prelude::*;
use vstd::string::*;
use vstd::utf8::encode_utf8;
use crate::text::chars_of;
use crate::listing::text_le;
use crate::mcp::requests::json_string_text;

verus! {

broadcast use vstd::string::group_string_axioms;

/// Cache metadata for a stored render.
#[derive(Debug, Clone)]
pub struct CacheMetadata {
    /// Creation timestamp (seconds since epoch)
    pub created_at: u64,
    /// TTL in seconds (0 = no expiration)
    pub ttl_secs: u64,
    /// Image width
    pub width: u32,
    /// Image height
    pub height: u32,
    /// Quality setting used
    pub quality: String,
    /// File size in bytes
    pub file_size: u64,
}

/// Whether an entry with this creation time and lifetime has expired when
/// the clock reads `now` seconds since the epoch (`None`: the clock could
/// not be read, and nothing is taken to have expired).
pub open spec fn expired_at(created_at: u64, ttl_secs: u64, now: Option<u64>) -> bool {
    if ttl_secs == 0 {
        false
    } else {
        match now {
            Some(n) => (if n >= created_at {
                n - created_at
            } else {
                0
            }) > ttl_secs,
            None => false,
        }
    }
}

#[verifier::external_type_specification]
#[verifier::external_body]
pub struct ExSystemTime(std::time::SystemTime);

/// Trusted: reads the system clock with `SystemTime::now`.  Nothing is
/// claimed of the reading.
#[verifier::external_body]
fn system_now() -> std::time::SystemTime {
    std::time::SystemTime::now()
}

/// Trusted: calls `SystemTime::duration_since` with `UNIX_EPOCH`, giving
/// whole seconds, or `None` where the time is before the epoch.  Nothing is
/// claimed of the value, which depends on the clock reading.
#[verifier::external_body]
fn secs_since_epoch(t: &std::time::SystemTime) -> Option<u64> {
    match t.duration_since(std::time::UNIX_EPOCH) {
        Ok(d) => Some(d.as_secs()),
        Err(_) => None,
    }
}

impl CacheMetadata {
    /// Whether the entry has expired at the clock reading `now`.
    pub fn is_expired_at(&self, now: Option<u64>) -> (r: bool)
        ensures
            r == expired_at(self.created_at, self.ttl_secs, now),
    {
        if self.ttl_secs == 0 {
            return false;
        }
        match now {
            Some(n) => {
                let age = n.saturating_sub(self.created_at);
                age > self.ttl_secs
            },
            None => false,
        }
    }

    /// Check if cache entry is expired, by the current time.
    pub fn is_expired(&self) -> (r: bool)
        ensures
            self.ttl_secs == 0 ==> !r,
            exists|now: Option<u64>| r == expired_at(self.created_at, self.ttl_secs, now),
    {
        let now = secs_since_epoch(&system_now());
        self.is_expired_at(now)
    }
}

/// What `serde_json::to_string` writes for the `BTreeMap` collected from
/// `entries` (keys in sorted order, a repeated key keeping its last value).
pub uninterp spec fn json_object_text(entries: Seq<(Seq<char>, Seq<char>)>) -> Seq<char>;

/// The cache parameters as the entries of a JSON object: `content`,
/// `image_size` and `quality`.
pub open spec fn cache_params(content: Seq<char>, quality: Seq<char>, image_size: Seq<char>) -> Seq<(Seq<char>, Seq<char>)> {
    seq![("content"@, content), ("image_size"@, image_size), ("quality"@, quality)]
}

/// One member of a JSON object of strings, as `serde_json` writes it.
pub open spec fn json_member_text(e: (Seq<char>, Seq<char>)) -> Seq<char> {
    json_string_text(e.0) + seq![':'] + json_string_text(e.1)
}

/// The members of a JSON object of strings, separated by commas.
pub open spec fn json_members_text(entries: Seq<(Seq<char>, Seq<char>)>) -> Seq<char>
    decreases entries.len(),
{
    if entries.len() == 0 {
        seq![]
    } else if entries.len() == 1 {
        json_member_text(entries[0])
    } else {
        json_members_text(entries.drop_last()) + seq![','] + json_member_text(entries.last())
    }
}

/// The keys of `entries` ascend strictly, in the order of `String`.
pub open spec fn keys_ascending(entries: Seq<(Seq<char>, Seq<char>)>) -> bool {
    forall|i: int, j: int|
        0 <= i < j < entries.len() ==> text_le(#[trigger] entries[i].0, #[trigger] entries[j].0)
            && entries[i].0 != entries[j].0
}

/// The JSON text that a cache key is computed from: the object of the three
/// values, keys in sorted order.
pub open spec fn params_json(content: Seq<char>, quality: Seq<char>, image_size: Seq<char>) -> Seq<char> {
    seq!['{'] + json_members_text(cache_params(content, quality, image_size)) + seq!['}']
}

/// The SHA-256 digest of `data`.
pub uninterp spec fn sha256(data: Seq<u8>) -> Seq<u8>;

/// Trusted: collects `entries` into a `BTreeMap<String, String>` and calls
/// `serde_json::to_string` on it, which cannot fail for string keys and
/// values.  Claimed: the text is a function of the entries,
/// `json_object_text`; and where the keys already ascend, the map keeps
/// them in that order, so the text is `{`, the members `"key":"value"`
/// separated by commas, and `}` (the compact formatter of `ser.rs`).
#[verifier::external_body]
fn json_object_of(entries: Vec<(String, String)>) -> (r: String)
    ensures
        r@ == json_object_text(entries.deep_view()),
        keys_ascending(entries.deep_view()) ==> r@ == seq!['{'] + json_members_text(entries.deep_view())
            + seq!['}'],
{
    let map: std::collections::BTreeMap<String, String> = entries.into_iter().collect();
    serde_json::to_string(&map).unwrap_or_default()
}

/// Trusted: calls `<sha2::Sha256 as sha2::Digest>::digest`.  Claimed: the
/// digest is a function of the data, and is 32 bytes long (SHA-256 output).
#[verifier::external_body]
fn sha256_digest(data: &[u8]) -> (r: Vec<u8>)
    ensures
        r@ == sha256(data@),
        r@.len() == 32,
{
    <sha2::Sha256 as sha2::Digest>::digest(data).to_vec()
}

/// The lowercase hexadecimal digits.
pub open spec fn hex_digits() -> Seq<char> {
    "0123456789abcdef"@
}

/// Lowercase hexadecimal text of `b`, two digits per byte, high digit first.
pub open spec fn hex_lower(b: Seq<u8>) -> Seq<char>
    decreases b.len(),
{
    if b.len() == 0 {
        seq![]
    } else {
        hex_lower(b.drop_last()) + seq![
            hex_digits()[(b[b.len() - 1] / 16) as int],
            hex_digits()[(b[b.len() - 1] % 16) as int],
        ]
    }
}

/// Law: the hexadecimal text of `b` has two characters per byte, each a
/// lowercase hexadecimal digit.
pub proof fn law_hex_lower_shape(b: Seq<u8>)
    ensures
        hex_lower(b).len() == 2 * b.len(),
        forall|i: int| 0 <= i < hex_lower(b).len() ==> hex_digits().contains(#[trigger] hex_lower(b)[i]),
    decreases b.len(),
{
    reveal_strlit("0123456789abcdef");
    if b.len() > 0 {
        law_hex_lower_shape(b.drop_last());
        let h = hex_lower(b);
        let t = hex_lower(b.drop_last());
        let x = b[b.len() - 1];
        assert(h == t + seq![hex_digits()[(x / 16) as int], hex_digits()[(x % 16) as int]]);
        assert forall|i: int| 0 <= i < h.len() implies hex_digits().contains(#[trigger] h[i]) by {
            if i < t.len() {
                assert(h[i] == t[i]);
            } else if i == t.len() {
                assert(hex_digits()[(x / 16) as int] == h[i]);
            } else {
                assert(hex_digits()[(x % 16) as int] == h[i]);
            }
        }
    }
}

/// Lowercase hexadecimal text of a byte string.
pub fn to_hex_lower(b: &[u8]) -> (r: String)
    ensures
        r@ == hex_lower(b@),
{
    let digits = "0123456789abcdef";
    proof {
        reveal_strlit("0123456789abcdef");
    }
    assert(digits@.len() == 16);
    let mut out = String::new();
    for i in 0..b.len()
        invariant
            digits@ == hex_digits(),
            digits@.len() == 16,
            out@ == hex_lower(b@.take(i as int)),
    {
        let x = b[i];
        let hi = (x / 16) as usize;
        let lo = (x % 16) as usize;
        let ghost before = out@;
        out.append(digits.substring_char(hi, hi + 1));
        out.append(digits.substring_char(lo, lo + 1));
        proof {
            assert(b@.take(i + 1).drop_last() =~= b@.take(i as int));
            assert(out@ =~= before + seq![hex_digits()[hi as int], hex_digits()[lo as int]]);
        }
    }
    assert(b@.take(b@.len() as int) =~= b@);
    out
}

/// Joins `part` to `base` as `PathBuf::push` does on Unix: an absolute
/// `part` replaces `base`; otherwise one `/` separates them unless `base`
/// is empty or already ends with one.
pub open spec fn join_path(base: Seq<char>, part: Seq<char>) -> Seq<char> {
    if part.len() > 0 && part[0] == '/' {
        part
    } else if base.len() == 0 || base[base.len() - 1] == '/' {
        base + part
    } else {
        base + seq!['/'] + part
    }
}

/// Law: joining distinct relative parts to one base gives distinct paths,
/// so entries stored under different keys never share a directory, and the
/// image and the metadata of an entry never share a file.
pub proof fn law_join_injective(base: Seq<char>, a: Seq<char>, b: Seq<char>)
    requires
        a != b,
        !(a.len() > 0 && a[0] == '/'),
        !(b.len() > 0 && b[0] == '/'),
    ensures
        join_path(base, a) != join_path(base, b),
{
    let p = if base.len() == 0 || base[base.len() - 1] == '/' {
        base
    } else {
        base + seq!['/']
    };
    assert(join_path(base, a) =~= p + a);
    assert(join_path(base, b) =~= p + b);
    if p + a == p + b {
        assert((p + a).skip(p.len() as int) =~= a);
        assert((p + b).skip(p.len() as int) =~= b);
    }
}

/// The image and the metadata of an entry are distinct files.
pub proof fn law_entry_files_distinct(entry: Seq<char>)
    ensures
        join_path(entry, "image.png"@) != join_path(entry, "metadata.json"@),
{
    reveal_strlit("image.png");
    reveal_strlit("metadata.json");
    assert("image.png"@[0] != "metadata.json"@[0]);
    law_join_injective(entry, "image.png"@, "metadata.json"@);
}

/// `base` joined with `part`.
pub fn join(base: &str, part: &str) -> (r: String)
    ensures
        r@ == join_path(base@, part@),
{
    let b = chars_of(base);
    let p = chars_of(part);
    if p.len() > 0 && p[0] == '/' {
        String::from_str(part)
    } else if b.len() == 0 || b[b.len() - 1] == '/' {
        String::from_str(base).concat(part)
    } else {
        let r = String::from_str(base).concat("/").concat(part);
        proof {
            reveal_strlit("/");
        }
        assert(r@ =~= base@ + seq!['/'] + part@);
        r
    }
}

/// Position of a cached render in the cache: a directory `cache_dir` that
/// holds one subdirectory per key, limited to `max_size_mb` megabytes.
pub struct FileCache {
    cache_dir: String,
    max_size_mb: u64,
}

/// The number of bytes in `mb` megabytes.
pub open spec fn megabytes(mb: u64) -> int {
    mb * 1024 * 1024
}

impl FileCache {
    /// The cache directory.
    pub closed spec fn dir(&self) -> Seq<char> {
        self.cache_dir@
    }

    /// The size limit in megabytes.
    pub closed spec fn limit_mb(&self) -> u64 {
        self.max_size_mb
    }

    /// A cache rooted at `cache_dir`, limited to `max_size_mb` megabytes; the
    /// directory itself is not touched.
    pub fn with_limit(cache_dir: String, max_size_mb: u64) -> (c: Self)
        ensures
            c.dir() == cache_dir@,
            c.limit_mb() == max_size_mb,
    {
        FileCache { cache_dir, max_size_mb }
    }

    /// The cache directory.
    pub fn cache_dir(&self) -> (r: &str)
        ensures
            r@ == self.dir(),
    {
        self.cache_dir.as_str()
    }

    /// The size limit in megabytes.
    pub fn max_size_mb(&self) -> (r: u64)
        ensures
            r == self.limit_mb(),
    {
        self.max_size_mb
    }

    /// The size limit in bytes.
    pub fn max_bytes(&self) -> (r: u64)
        requires
            megabytes(self.limit_mb()) <= u64::MAX,
        ensures
            r == megabytes(self.limit_mb()),
    {
        self.max_size_mb * 1024 * 1024
    }

    /// Whether a cache of `size` bytes keeps within the limit.
    pub fn within_limit(&self, size: u64) -> (r: bool)
        requires
            megabytes(self.limit_mb()) <= u64::MAX,
        ensures
            r == (size <= megabytes(self.limit_mb())),
    {
        size <= self.max_bytes()
    }

    /// Compute cache key from content and parameters: the lowercase hex
    /// SHA-256 of the JSON object of the three values with sorted keys.
    pub fn compute_key(content: &str, quality: &str, image_size: &str) -> (r: String)
        ensures
            r@ == hex_lower(sha256(encode_utf8(params_json(content@, quality@, image_size@)))),
            r@.len() == 64,
            forall|i: int| 0 <= i < r@.len() ==> hex_digits().contains(#[trigger] r@[i]),
    {
        let entries = vec![
            (String::from_str("content"), String::from_str(content)),
            (String::from_str("image_size"), String::from_str(image_size)),
            (String::from_str("quality"), String::from_str(quality)),
        ];
        assert(entries.deep_view() =~= cache_params(content@, quality@, image_size@));
        proof {
            reveal_strlit("content");
            reveal_strlit("image_size");
            reveal_strlit("quality");
            let ps = cache_params(content@, quality@, image_size@);
            assert(text_le(ps[0].0, ps[1].0) && ps[0].0 != ps[1].0);
            assert(text_le(ps[0].0, ps[2].0) && ps[0].0 != ps[2].0);
            assert(text_le(ps[1].0, ps[2].0) && ps[1].0 != ps[2].0);
            assert(keys_ascending(ps));
        }
        let json = json_object_of(entries);
        let digest = sha256_digest(json.as_str().as_bytes());
        proof {
            law_hex_lower_shape(digest@);
        }
        to_hex_lower(digest.as_slice())
    }

    /// Get cache entry path.
    pub fn entry_path(&self, key: &str) -> (r: String)
        ensures
            r@ == join_path(self.dir(), key@),
    {
        join(self.cache_dir.as_str(), key)
    }

    /// Get image file path.
    pub fn image_path(&self, key: &str) -> (r: String)
        ensures
            r@ == join_path(join_path(self.dir(), key@), "image.png"@),
    {
        let e = self.entry_path(key);
        join(e.as_str(), "image.png")
    }

    /// Get metadata file path.
    pub fn metadata_path(&self, key: &str) -> (r: String)
        ensures
            r@ == join_path(join_path(self.dir(), key@), "metadata.json"@),
    {
        let e = self.entry_path(key);
        join(e.as_str(), "metadata.json")
    }
}

/// Entry `a` comes before entry `b` in eviction order: the least recently
/// modified (greater age) first, and among equal ages the one listed first.
pub open spec fn evicted_before(ages: Seq<u64>, a: int, b: int) -> bool {
    ages[a] > ages[b] || (ages[a] == ages[b] && a < b)
}

/// `p` lists every index of `ages` once, in eviction order.
pub open spec fn is_eviction_order(ages: Seq<u64>, p: Seq<int>) -> bool {
    &&& p.len() == ages.len()
    &&& forall|k: int| 0 <= k < p.len() ==> 0 <= #[trigger] p[k] < ages.len()
    &&& forall|k: int, l: int|
        0 <= k < l < p.len() ==> evicted_before(ages, #[trigger] p[k], #[trigger] p[l])
}

/// The ages of cache entries.
pub open spec fn ages_of(entries: Seq<(String, u64)>) -> Seq<u64> {
    entries.map_values(|e: (String, u64)| e.1)
}

/// The order in which the eviction of an over-full cache removes entries,
/// given each entry's path and the seconds since it was last modified:
/// least recently used first, that is descending by those seconds, entries
/// with equal seconds in the order given (a stable sort).
pub fn eviction_order(entries: &Vec<(String, u64)>) -> (r: Vec<String>)
    ensures
        r@.len() == entries@.len(),
        exists|p: Seq<int>|
            is_eviction_order(ages_of(entries@), p) && forall|k: int|
                0 <= k < p.len() ==> #[trigger] r@[k]@ == entries@[p[k]].0@,
{
    let n = entries.len();
    let ghost ages = ages_of(entries@);
    let mut order: Vec<usize> = Vec::new();
    for i in 0..n
        invariant
            n == entries.len(),
            ages == ages_of(entries@),
            order@.len() == i,
            forall|k: int| 0 <= k < order@.len() ==> #[trigger] order@[k] < i,
            forall|k: int, l: int|
                0 <= k < l < order@.len() ==> evicted_before(
                    ages,
                    #[trigger] order@[k] as int,
                    #[trigger] order@[l] as int,
                ),
    {
        let age = entries[i].1;
        let mut j: usize = 0;
        while j < order.len() && entries[order[j]].1 >= age
            invariant
                n == entries.len(),
                ages == ages_of(entries@),
                i < n,
                age == ages[i as int],
                j <= order@.len(),
                forall|k: int| 0 <= k < order@.len() ==> #[trigger] order@[k] < i,
                forall|k: int| 0 <= k < j ==> ages[#[trigger] order@[k] as int] >= age,
            decreases order@.len() - j,
        {
            j = j + 1;
        }
        let ghost before = order@;
        order.insert(j, i);
        proof {
            assert forall|k: int| 0 <= k < order@.len() implies #[trigger] order@[k] < i + 1 by {
                if k < j {
                    assert(order@[k] == before[k]);
                } else if k > j {
                    assert(order@[k] == before[k - 1]);
                }
            }
            assert forall|k: int, l: int| 0 <= k < l < order@.len() implies evicted_before(
                ages,
                #[trigger] order@[k] as int,
                #[trigger] order@[l] as int,
            ) by {
                if j < before.len() {
                    assert(ages[before[j as int] as int] < age);
                }
                if k < j && l < j {
                    assert(order@[k] == before[k] && order@[l] == before[l]);
                } else if k < j && l == j {
                    assert(order@[k] == before[k]);
                } else if k < j {
                    assert(order@[k] == before[k] && order@[l] == before[l - 1]);
                } else if k == j {
                    assert(order@[l] == before[l - 1]);
                    if l - 1 > j {
                        assert(evicted_before(ages, before[j as int] as int, before[l - 1] as int));
                    }
                } else {
                    assert(order@[k] == before[k - 1] && order@[l] == before[l - 1]);
                }
            }
        }
    }
    let mut out: Vec<String> = Vec::new();
    for k in 0..n
        invariant
            n == entries.len(),
            order@.len() == n,
            forall|m: int| 0 <= m < order@.len() ==> #[trigger] order@[m] < n,
            out@.len() == k,
            forall|m: int| 0 <= m < k ==> #[trigger] out@[m]@ == entries@[order@[m] as int].0@,
    {
        out.push(entries[order[k]].0.clone());
    }
    let ghost p = order@.map_values(|x: usize| x as int);
    assert(is_eviction_order(ages, p));
    assert forall|k: int| 0 <= k < p.len() implies #[trigger] out@[k]@ == entries@[p[k]].0@ by {}
    out
}

} // verus!
