//! MetaFiles and the MetaAlmanac: where each kernel of an Almanac comes from,
//! and what must be done before it can be loaded.
//!
//! A URI that `url` cannot parse, or whose scheme is not HTTP, is a local
//! path (a `file://` prefix is stripped). An HTTP URI names a remote file,
//! cached locally under the file name of its last path segment; a cached
//! copy is used where its CRC32 matches the one configured.
use vstd::prelude::*;
use vstd::string::*;

use crate::errors::MetaAlmanacError;
use crate::text::str_eq;

verus! {

/// A file of a MetaAlmanac: its URI and, optionally, its CRC32 checksum.
#[derive(Clone, Debug, PartialEq, Eq, Default)]
pub struct MetaFile {
    /// URI of this meta file.
    pub uri: String,
    /// The CRC32 of this file, checked before a cached copy is used.
    pub crc32: Option<u32>,
}

/// What `url::Url::parse` makes of a URI: `None` where it is not a URL, else
/// its scheme and the last of its path segments (none for a URL that cannot
/// be a base).
pub uninterp spec fn url_parts(uri: Seq<char>) -> Option<(Seq<char>, Option<Seq<char>>)>;

/// The URL `rel` resolved against the base URL `base`, as text, by
/// `url::Url::parse` and `Url::join`; `None` where either fails.
pub uninterp spec fn url_join(base: Seq<char>, rel: Seq<char>) -> Option<Seq<char>>;

/// The CRC32 (IEEE) checksum of the bytes, as `crc32fast::hash` computes it.
pub uninterp spec fn crc32_of(bytes: Seq<u8>) -> u32;

/// The view of an optional text.
pub open spec fn opt_view(o: Option<String>) -> Option<Seq<char>> {
    match o {
        None => None,
        Some(x) => Some(x@),
    }
}

/// The views of the parts of a parsed URL.
pub open spec fn parts_view(p: Option<(String, Option<String>)>) -> Option<(Seq<char>, Option<Seq<char>>)> {
    match p {
        None => None,
        Some((s, seg)) => Some(
            (
                s@,
                opt_view(seg),
            ),
        ),
    }
}

/// `url::Url::parse`, then `Url::scheme` and the last of `Url::path_segments`.
#[verifier::external_body]
fn parse_url_parts(uri: &str) -> (r: Option<(String, Option<String>)>)
    ensures
        parts_view(r) == url_parts(uri@),
{
    match url::Url::parse(uri) {
        Err(_) => None,
        Ok(url) => Some((url.scheme().to_string(), url.path_segments().and_then(|s| s.last()).map(|s| s.to_string()))),
    }
}

/// `url::Url::parse` of `base`, then `Url::join` of `rel`, written as text.
#[verifier::external_body]
fn join_url(base: &str, rel: &str) -> (r: Option<String>)
    ensures
        r matches Some(u) ==> url_join(base@, rel@) == Some(u@),
        r is None ==> url_join(base@, rel@) is None,
{
    match url::Url::parse(base) {
        Err(_) => None,
        Ok(b) => match b.join(rel) {
            Err(_) => None,
            Ok(u) => Some(u.to_string()),
        },
    }
}

/// `crc32fast::hash`: the CRC32 of the bytes.
#[verifier::external_body]
fn crc32_hash(bytes: &[u8]) -> (r: u32)
    ensures
        r == crc32_of(bytes@),
{
    crc32fast::hash(bytes)
}

/// A path segment that every platform reads as one plain file name: not
/// empty, not `.` or `..`, and without a separator (`/`, `\\`) or a drive
/// or prefix mark (`:`).
pub open spec fn plain_segment(s: Seq<char>) -> bool {
    &&& s != ""@
    &&& s != "."@
    &&& s != ".."@
    &&& !s.contains('/')
    &&& !s.contains('\\')
    &&& !s.contains(':')
}

/// The empty path, `.` and `..`.
pub open spec fn no_file_name(s: Seq<char>) -> bool {
    s == ""@ || s == "."@ || s == ".."@
}

/// `std::path::Path::file_name` of a path segment: a plain segment is its own
/// file name; the empty path, `.` and `..` have none (a path ending in `..`
/// has no file name, and neither has a path without a normal component).
/// What it gives for a segment holding `\\` or `:` follows the path syntax of
/// the platform, and is not stated.
#[verifier::external_body]
fn segment_file_name(segment: &str) -> (r: Option<String>)
    ensures
        plain_segment(segment@) ==> r is Some && r.unwrap()@ == segment@,
        no_file_name(segment@) ==> r is None,
{
    std::path::Path::new(segment).file_name().and_then(|f| f.to_str()).map(|f| f.to_string())
}

/// The number of bytes of a character in UTF-8.
pub open spec fn utf8_len(c: char) -> nat {
    if (c as u32) < 0x80 {
        1
    } else if (c as u32) < 0x800 {
        2
    } else if (c as u32) < 0x10000 {
        3
    } else {
        4
    }
}

/// The number of bytes of the first `k` characters in UTF-8.
pub open spec fn utf8_prefix_len(s: Seq<char>, k: int) -> nat
    decreases k,
{
    if k <= 0 {
        0
    } else {
        utf8_prefix_len(s, k - 1) + utf8_len(s[k - 1])
    }
}

/// The first `n` bytes of the UTF-8 text `s` are whole characters.
pub open spec fn is_byte_boundary(s: Seq<char>, n: nat) -> bool {
    exists|k: int| 0 <= k <= s.len() && #[trigger] utf8_prefix_len(s, k) == n
}

/// The text after its first `n` bytes, where these are whole characters.
pub open spec fn skip_bytes(s: Seq<char>, n: nat) -> Seq<char> {
    s.skip(choose|k: int| 0 <= k <= s.len() && #[trigger] utf8_prefix_len(s, k) == n)
}

/// The scheme is an HTTP one: it starts with `http`.
pub open spec fn is_http(scheme: Seq<char>) -> bool {
    scheme.len() >= 4 && scheme.take(4) == "http"@
}

/// Processing a MetaFile whose URI parsed to `parsed` would slice its URI
/// inside a character, which panics: a `file` URL whose first seven bytes
/// are not whole characters.
pub open spec fn slices_inside_char(uri: Seq<char>, parsed: Option<(Seq<char>, Option<Seq<char>>)>) -> bool {
    match parsed {
        Some((s, _)) => !is_http(s) && s == "file"@ && !is_byte_boundary(uri, 7),
        None => false,
    }
}

proof fn lemma_utf8_prefix_monotonic(s: Seq<char>, j: int, k: int)
    requires
        0 <= j <= k,
    ensures
        utf8_prefix_len(s, j) <= utf8_prefix_len(s, k),
        j < k ==> utf8_prefix_len(s, j) < utf8_prefix_len(s, k),
    decreases k - j,
{
    if j < k {
        lemma_utf8_prefix_monotonic(s, j, k - 1);
    }
}

fn utf8_len_exec(c: char) -> (r: usize)
    ensures
        r == utf8_len(c),
{
    let v = c as u32;
    if v < 0x80 {
        1
    } else if v < 0x800 {
        2
    } else if v < 0x10000 {
        3
    } else {
        4
    }
}

/// The number of characters in the first `n` bytes of `s`, where these are
/// whole characters.
fn chars_in_bytes(s: &str, n: usize) -> (r: Option<usize>)
    requires
        n < 0x1000,
    ensures
        r matches Some(k) ==> k <= s@.len() && utf8_prefix_len(s@, k as int) == n,
        r is None ==> !is_byte_boundary(s@, n as nat),
{
    let len = s.unicode_len();
    let mut k: usize = 0;
    let mut bytes: usize = 0;
    while k < len && bytes < n
        invariant
            len == s@.len(),
            k <= len,
            bytes == utf8_prefix_len(s@, k as int),
            bytes < n + 4,
            n < 0x1000,
            forall|j: int| 0 <= j < k ==> #[trigger] utf8_prefix_len(s@, j) < n,
        decreases len - k,
    {
        bytes = bytes + utf8_len_exec(s.get_char(k));
        k = k + 1;
    }
    if bytes == n {
        Some(k)
    } else {
        proof {
            assert forall|j: int| 0 <= j <= s@.len() implies #[trigger] utf8_prefix_len(s@, j) != n by {
                if j > k {
                    lemma_utf8_prefix_monotonic(s@, k as int, j);
                }
            }
        }
        None
    }
}

/// Whether the scheme starts with `http`.
fn is_http_exec(scheme: &str) -> (r: bool)
    ensures
        r == is_http(scheme@),
{
    proof {
        reveal_strlit("http");
    }
    if scheme.unicode_len() < 4 {
        return false;
    }
    let head = scheme.substring_char(0, 4);
    str_eq(head, "http")
}

/// The result of processing a MetaFile whose URI parsed to `parsed`, and
/// whose last path segment has the file name `file_name` (consulted for HTTP
/// URLs only): `None` for a local path, else the file name of the remote file.
pub open spec fn resolve_result(
    uri: Seq<char>,
    parsed: Option<(Seq<char>, Option<Seq<char>>)>,
    file_name: Option<Seq<char>>,
) -> Result<Option<Seq<char>>, Seq<char>> {
    match parsed {
        None => Ok(None),
        Some((scheme, segment)) => if !is_http(scheme) {
            Ok(None)
        } else {
            match (segment, file_name) {
                (Some(_), Some(f)) => Ok(Some(f)),
                _ => Err(uri),
            }
        },
    }
}

/// The URI once processing has read it: a `file` URL loses its first seven
/// bytes, every other URI stays.
pub open spec fn resolved_uri(uri: Seq<char>, parsed: Option<(Seq<char>, Option<Seq<char>>)>) -> Seq<char> {
    match parsed {
        Some((scheme, _)) => if !is_http(scheme) && scheme == "file"@ {
            skip_bytes(uri, 7)
        } else {
            uri
        },
        None => uri,
    }
}

impl MetaFile {
    /// Processes this MetaFile given what `url` made of its URI (`parsed`)
    /// and the file name of the URL's last path segment (`file_name`, read
    /// for HTTP URLs only). A local path is kept, less a `file://` prefix, and
    /// gives `Ok(None)`; an HTTP URL gives the name under which the remote
    /// file is cached, or `MissingFilePath` where there is none.
    pub fn resolve_parsed(&mut self, parsed: Option<(String, Option<String>)>, file_name: Option<String>) -> (r: Result<
        Option<String>,
        MetaAlmanacError,
    >)
        requires
            !slices_inside_char(old(self).uri@, parts_view(parsed)),
        ensures
            final(self).uri@ == resolved_uri(old(self).uri@, parts_view(parsed)),
            final(self).crc32 == old(self).crc32,
            match resolve_result(old(self).uri@, parts_view(parsed), opt_view(file_name)) {
                Ok(None) => r matches Ok(None),
                Ok(Some(f)) => r matches Ok(Some(g)) && g@ == f,
                Err(p) => r matches Err(MetaAlmanacError::MissingFilePath { path }) && path@ == p,
            },
    {
        proof {
            reveal_strlit("file");
        }
        match parsed {
            None => Ok(None),
            Some((scheme, segment)) => {
                if !is_http_exec(scheme.as_str()) {
                    if str_eq(scheme.as_str(), "file") {
                        match chars_in_bytes(self.uri.as_str(), 7) {
                            Some(k) => {
                                let n = self.uri.as_str().unicode_len();
                                let rest = self.uri.as_str().substring_char(k, n);
                                let mut tail = String::new();
                                tail.append(rest);
                                proof {
                                    let c = choose|j: int| 0 <= j <= self.uri@.len() && #[trigger] utf8_prefix_len(self.uri@, j) == 7;
                                    if c < k {
                                        lemma_utf8_prefix_monotonic(self.uri@, c, k as int);
                                    } else if c > k {
                                        lemma_utf8_prefix_monotonic(self.uri@, k as int, c);
                                    }
                                    assert(rest@ =~= skip_bytes(self.uri@, 7));
                                }
                                self.uri = tail;
                            },
                            None => {},
                        }
                    }
                    return Ok(None);
                }
                match (segment, file_name) {
                    (Some(_), Some(f)) => Ok(Some(f)),
                    _ => Err(MetaAlmanacError::MissingFilePath { path: self.uri.clone() }),
                }
            },
        }
    }
}

impl MetaFile {
    /// Processes this MetaFile's URI: parses it with `url`, and, for an HTTP
    /// URL, takes the file name of its last path segment. Gives `None`, and
    /// changes nothing, where the URI is a `file` URL whose first seven bytes
    /// are not whole characters, which cannot be sliced off.
    pub fn resolve(&mut self) -> (r: Option<Result<Option<String>, MetaAlmanacError>>)
        ensures
            r is None <==> slices_inside_char(old(self).uri@, url_parts(old(self).uri@)),
            r is None ==> final(self).uri@ == old(self).uri@,
            r is Some ==> final(self).uri@ == resolved_uri(old(self).uri@, url_parts(old(self).uri@)),
            final(self).crc32 == old(self).crc32,
            r matches Some(res) ==> match url_parts(old(self).uri@) {
                None => res matches Ok(None),
                Some((scheme, segment)) => if !is_http(scheme) {
                    res matches Ok(None)
                } else if segment is None || segment == Some(""@) || segment == Some("."@) || segment == Some(".."@) {
                    res matches Err(MetaAlmanacError::MissingFilePath { path }) && path@ == old(self).uri@
                } else if plain_segment(segment.unwrap()) {
                    res matches Ok(Some(f)) && f@ == segment.unwrap()
                } else {
                    res matches Ok(Some(_)) || (res matches Err(MetaAlmanacError::MissingFilePath { path })
                        && path@ == old(self).uri@)
                },
            },
    {
        let parsed = parse_url_parts(self.uri.as_str());
        let mut file_name: Option<String> = None;
        match &parsed {
            Some((scheme, segment)) => {
                if is_http_exec(scheme.as_str()) {
                    match segment {
                        Some(seg) => {
                            file_name = segment_file_name(seg.as_str());
                        },
                        None => {},
                    }
                } else if str_eq(scheme.as_str(), "file") {
                    if chars_in_bytes(self.uri.as_str(), 7).is_none() {
                        return None;
                    }
                }
            },
            None => {},
        }
        proof {
            reveal_strlit("file");
        }
        Some(self.resolve_parsed(parsed, file_name))
    }

    /// Uses the cached copy of this remote file, whose bytes are `cached`, at
    /// `dest_path`, where a CRC32 is configured and the copy's matches it:
    /// the URI then becomes that path. Gives whether it did.
    pub fn use_cached(&mut self, dest_path: String, cached: &[u8]) -> (r: bool)
        ensures
            r == cache_matches(old(self).crc32, cached@),
            r ==> final(self).uri@ == dest_path@,
            !r ==> final(self).uri@ == old(self).uri@,
            final(self).crc32 == old(self).crc32,
    {
        match self.crc32 {
            Some(c) => {
                if crc32_hash(cached) == c {
                    self.uri = dest_path;
                    true
                } else {
                    false
                }
            },
            None => false,
        }
    }

    /// Records the download of this remote file to `dest_path`: the URI
    /// becomes that path and the CRC32 that of the downloaded bytes.
    pub fn record_download(&mut self, dest_path: String, bytes: &[u8])
        ensures
            final(self).uri@ == dest_path@,
            final(self).crc32 == recorded_crc(bytes@),
    {
        let crc = crc32_hash(bytes);
        self.uri = dest_path;
        self.crc32 = Some(crc);
    }
}

/// A MetaAlmanac: the files from which to build an Almanac, downloaded and
/// checked as needed.
#[derive(Clone, Debug, PartialEq, Eq)]
pub struct MetaAlmanac {
    /// The files, in loading order.
    pub files: Vec<MetaFile>,
}

/// The file of `rel` on the server at `base`, with its checksum, where the URL
/// could be built.
fn remote_file(base: &str, rel: &str, crc32: Option<u32>) -> (r: MetaFile)
    ensures
        url_join(base@, rel@) matches Some(u) ==> r.uri@ == u,
        r.crc32 == crc32,
{
    match join_url(base, rel) {
        Some(uri) => MetaFile { uri, crc32 },
        None => MetaFile { uri: String::new(), crc32 },
    }
}

/// The server of the Nyx Space public data.
pub open spec fn nyx_cloud() -> Seq<char> {
    "http://public-data.nyxspace.com/anise/"@
}

/// The server of the NAIF generic kernels.
pub open spec fn jpl_cloud() -> Seq<char> {
    "https://naif.jpl.nasa.gov/pub/naif/generic_kernels/"@
}

impl Default for MetaAlmanac {
    /// The latest kernels: DE440s, the planetary constants, the Moon frame
    /// kernel and principal axes, and the latest high-precision Earth
    /// orientation (which changes often, so has no checksum).
    fn default() -> (r: Self)
        ensures
            r.files.len() == 5,
            r.files[0].crc32 == Some(0x7286750a_u32),
            r.files[1].crc32 == Some(0x8213b6e9_u32),
            r.files[2].crc32 == Some(0xb93ba21_u32),
            r.files[3].crc32 == Some(0xcde5ca7d_u32),
            r.files[4].crc32 == None::<u32>,
            url_join(nyx_cloud(), "de440s.bsp"@) matches Some(u) ==> r.files[0].uri@ == u,
            url_join(nyx_cloud(), "v0.5/pck11.pca"@) matches Some(u) ==> r.files[1].uri@ == u,
            url_join(nyx_cloud(), "v0.5/moon_fk.epa"@) matches Some(u) ==> r.files[2].uri@ == u,
            url_join(nyx_cloud(), "moon_pa_de440_200625.bpc"@) matches Some(u) ==> r.files[3].uri@ == u,
            url_join(jpl_cloud(), "pck/earth_latest_high_prec.bpc"@) matches Some(u) ==> r.files[4].uri@ == u,
    {
        let nyx_cloud_stor = "http://public-data.nyxspace.com/anise/";
        let jpl_cloud_stor = "https://naif.jpl.nasa.gov/pub/naif/generic_kernels/";
        let files = vec![
            remote_file(nyx_cloud_stor, "de440s.bsp", Some(0x7286750a)),
            remote_file(nyx_cloud_stor, "v0.5/pck11.pca", Some(0x8213b6e9)),
            remote_file(nyx_cloud_stor, "v0.5/moon_fk.epa", Some(0xb93ba21)),
            remote_file(nyx_cloud_stor, "moon_pa_de440_200625.bpc", Some(0xcde5ca7d)),
            remote_file(jpl_cloud_stor, "pck/earth_latest_high_prec.bpc", None),
        ];
        MetaAlmanac { files }
    }
}

/// The checksum that a download of these bytes records.
pub open spec fn recorded_crc(bytes: Seq<u8>) -> Option<u32> {
    Some(crc32_of(bytes))
}

/// A cached copy of these bytes is used under this configured checksum.
pub open spec fn cache_matches(crc32: Option<u32>, bytes: Seq<u8>) -> bool {
    crc32 matches Some(c) && crc32_of(bytes) == c
}

/// A file just downloaded is then found in the cache: after
/// `record_download` of some bytes, `use_cached` with the same bytes uses the
/// cached copy, and with bytes of another checksum it does not.
pub proof fn lemma_download_then_cached(bytes: Seq<u8>, cached: Seq<u8>)
    ensures
        cache_matches(recorded_crc(bytes), bytes),
        cache_matches(recorded_crc(bytes), cached) <==> crc32_of(cached) == crc32_of(bytes),
{
}

} // verus!
