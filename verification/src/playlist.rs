//! HLS playlists of a track: the variants of a master playlist, the choice
//! of one variant, the byte ranges of a media playlist, and how the chosen
//! stream is remuxed.
use vstd::prelude::*;

use crate::text::{
    ascii_lower, chars_eq_str, chars_range, chars_to_string, contains, contains_chars,
    int_error_message, lower_chars, parse_unsigned, parse_unsigned_chars, push_all, push_str,
    starts_with, str_chars, trim, trim_char, trim_char_chars, trim_chars, IntErrorKind,
    float_error_message, is_float_text,
};

verus! {

/// Why a playlist could not be used.
#[derive(Debug)]
pub enum DownloadError {
    /// The playlist or a request broke the expected protocol.
    Protocol(String),
    /// Something else went wrong.
    Message(String),
}

/// The view of a download error: whether it is a protocol error, and its
/// message.
pub open spec fn error_view(e: DownloadError) -> (bool, Seq<char>) {
    match e {
        DownloadError::Protocol(m) => (true, m@),
        DownloadError::Message(m) => (false, m@),
    }
}

// ---------------------------------------------------------------------------
// Lines
// ---------------------------------------------------------------------------

/// The index of the first newline of `s`, or its length.
pub open spec fn first_newline(s: Seq<char>) -> nat
    decreases s.len(),
{
    if s.len() == 0 {
        0
    } else if s[0] == '\n' {
        0
    } else {
        1 + first_newline(s.drop_first())
    }
}

/// The lines of `s` as `str::lines` gives them: split at `\n`, a `\r` before
/// the `\n` dropped, no empty line after a final newline.
pub open spec fn split_lines(s: Seq<char>) -> Seq<Seq<char>>
    decreases s.len(),
{
    if s.len() == 0 {
        Seq::empty()
    } else {
        let k = first_newline(s);
        if k >= s.len() {
            seq![s]
        } else {
            let line = s.subrange(0, k as int);
            let line = if line.len() > 0 && line.last() == '\r' {
                line.drop_last()
            } else {
                line
            };
            seq![line] + split_lines(s.subrange(k as int + 1, s.len() as int))
        }
    }
}

proof fn lemma_first_newline(s: Seq<char>, k: int)
    requires
        0 <= k <= s.len(),
        forall|i: int| 0 <= i < k ==> #[trigger] s[i] != '\n',
        k == s.len() || s[k] == '\n',
    ensures
        first_newline(s) == k,
    decreases k,
{
    if k > 0 {
        lemma_first_newline(s.drop_first(), k - 1);
    }
}

/// The view of lines.
pub open spec fn lines_view(v: Seq<Vec<char>>) -> Seq<Seq<char>> {
    v.map_values(|l: Vec<char>| l@)
}

/// The lines of `text`, each trimmed.
pub fn trimmed_lines(text: &str) -> (lines: Vec<Vec<char>>)
    ensures
        lines_view(lines@) == split_lines(text@).map_values(|l: Seq<char>| trim(l)),
{
    let s = str_chars(text);
    let mut lines: Vec<Vec<char>> = Vec::new();
    let mut start: usize = 0;
    proof {
        assert(s@.subrange(0, s@.len() as int) =~= s@);
        assert(lines_view(lines@) + split_lines(s@.subrange(0, s@.len() as int)).map_values(
            |l: Seq<char>| trim(l),
        ) =~= split_lines(s@).map_values(|l: Seq<char>| trim(l)));
    }
    while start < s.len()
        invariant
            start <= s@.len(),
            s@ == text@,
            lines_view(lines@) + split_lines(s@.subrange(start as int, s@.len() as int)).map_values(
                |l: Seq<char>| trim(l),
            ) == split_lines(s@).map_values(|l: Seq<char>| trim(l)),
        decreases s.len() - start,
    {
        let ghost rest = s@.subrange(start as int, s@.len() as int);
        let mut k: usize = start;
        while k < s.len() && s[k] != '\n'
            invariant
                start <= k <= s@.len(),
                forall|i: int| start <= i < k ==> #[trigger] s@[i] != '\n',
            decreases s.len() - k,
        {
            k += 1;
        }
        proof {
            assert forall|i: int| 0 <= i < k - start implies #[trigger] rest[i] != '\n' by {
                assert(rest[i] == s@[start + i]);
            }
            if k < s@.len() {
                assert(rest[k - start] == s@[k as int]);
            }
            lemma_first_newline(rest, k - start);
        }
        let mut end = k;
        if end > start && s[end - 1] == '\r' && k < s.len() {
            end = end - 1;
        }
        let line = chars_range(&s, start, end);
        let t = trim_chars(&line);
        let ghost before = lines_view(lines@);
        lines.push(t);
        proof {
            let l = rest.subrange(0, k - start);
            assert(l =~= s@.subrange(start as int, k as int));
            if k < s@.len() {
                let tail = rest.subrange(k - start + 1, rest.len() as int);
                assert(tail =~= s@.subrange(k + 1, s@.len() as int));
                let stripped = if l.len() > 0 && l.last() == '\r' {
                    l.drop_last()
                } else {
                    l
                };
                assert(stripped =~= line@);
                assert(split_lines(rest) == seq![stripped] + split_lines(tail));
                assert(split_lines(rest).map_values(|x: Seq<char>| trim(x)) =~= seq![trim(stripped)]
                    + split_lines(tail).map_values(|x: Seq<char>| trim(x)));
                assert(lines_view(lines@) =~= before.push(trim(line@)));
            } else {
                assert(l =~= rest);
                assert(line@ =~= rest);
                assert(split_lines(rest) == seq![rest]);
                assert(lines_view(lines@) =~= before.push(trim(rest)));
                assert(s@.subrange(s@.len() as int, s@.len() as int) =~= Seq::<char>::empty());
            }
        }
        if k < s.len() {
            start = k + 1;
        } else {
            start = k;
        }
    }
    proof {
        assert(s@.subrange(start as int, s@.len() as int) =~= Seq::<char>::empty());
        assert(lines_view(lines@) + Seq::<Seq<char>>::empty() =~= lines_view(lines@));
    }
    lines
}

// ---------------------------------------------------------------------------
// Attribute lists
// ---------------------------------------------------------------------------

/// The pattern of one `KEY=value` attribute: the value quoted, or up to the
/// next comma.
pub const ATTR_PATTERN: &'static str = "([A-Z0-9-]+)=(\".*?\"|[^,]+)";

/// Groups 1 and 2 of each successive non-overlapping match of `pattern` in
/// `text`, as `regex::Regex::captures_iter` finds them (a group that did not
/// take part is empty); nothing for an invalid pattern.
pub uninterp spec fn regex_capture_pairs(pattern: Seq<char>, text: Seq<char>) -> Seq<
    (Seq<char>, Seq<char>),
>;

/// The view of string pairs.
pub open spec fn pairs_view(v: Seq<(String, String)>) -> Seq<(Seq<char>, Seq<char>)> {
    v.map_values(|p: (String, String)| (p.0@, p.1@))
}

/// Runs `regex::Regex::captures_iter` and keeps groups 1 and 2 of each match.
#[verifier::external_body]
fn capture_pairs(pattern: &str, text: &str) -> (r: Vec<(String, String)>)
    ensures
        pairs_view(r@) == regex_capture_pairs(pattern@, text@),
{
    match regex::Regex::new(pattern) {
        Ok(re) => re.captures_iter(text).map(
            |c| (c.get(1).map_or(String::new(), |m| m.as_str().to_owned()),
                c.get(2).map_or(String::new(), |m| m.as_str().to_owned())),
        ).collect(),
        Err(_) => Vec::new(),
    }
}

/// The attributes of an attribute list, in order, values without their
/// surrounding quotes.
pub open spec fn attr_list(text: Seq<char>) -> Seq<(Seq<char>, Seq<char>)> {
    regex_capture_pairs(ATTR_PATTERN@, text).map_values(
        |p: (Seq<char>, Seq<char>)| (p.0, trim_char(p.1, '"')),
    )
}

/// The value of the last attribute named `key`, as a map built from the
/// list keeps it.
pub open spec fn lookup(attrs: Seq<(Seq<char>, Seq<char>)>, key: Seq<char>) -> Option<Seq<char>>
    decreases attrs.len(),
{
    if attrs.len() == 0 {
        None
    } else if attrs.last().0 == key {
        Some(attrs.last().1)
    } else {
        lookup(attrs.drop_last(), key)
    }
}

/// The attributes of an HLS attribute list.
pub fn parse_attrs(text: &str) -> (attrs: Vec<(String, String)>)
    ensures
        pairs_view(attrs@) == attr_list(text@),
{
    let raw = capture_pairs(ATTR_PATTERN, text);
    let mut out: Vec<(String, String)> = Vec::new();
    let mut i: usize = 0;
    while i < raw.len()
        invariant
            i <= raw@.len(),
            pairs_view(out@) == pairs_view(raw@.subrange(0, i as int)).map_values(
                |p: (Seq<char>, Seq<char>)| (p.0, trim_char(p.1, '"')),
            ),
        decreases raw.len() - i,
    {
        let key = chars_to_string(&str_chars(raw[i].0.as_str()));
        let v = str_chars(raw[i].1.as_str());
        let t = trim_char_chars(&v, '"');
        let value = chars_to_string(&t);
        let ghost before = out@;
        out.push((key, value));
        proof {
            assert(key@ == raw@[i as int].0@);
            assert(out@ == before.push((key, value)));
            assert(pairs_view(out@) =~= pairs_view(before).push((key@, value@)));
            assert(pairs_view(raw@.subrange(0, i + 1)) =~= pairs_view(raw@.subrange(0, i as int)).push(
                (raw@[i as int].0@, raw@[i as int].1@),
            ));
            assert(pairs_view(out@) =~= pairs_view(raw@.subrange(0, i + 1)).map_values(
                |p: (Seq<char>, Seq<char>)| (p.0, trim_char(p.1, '"')),
            ));
        }
        i += 1;
    }
    assert(raw@.subrange(0, raw@.len() as int) =~= raw@);
    out
}

/// The value of the attribute `key`, the last one when it repeats.
pub fn attr_get(attrs: &Vec<(String, String)>, key: &str) -> (r: Option<String>)
    ensures
        match r {
            Some(v) => lookup(pairs_view(attrs@), key@) == Some(v@),
            None => lookup(pairs_view(attrs@), key@) is None,
        },
{
    let mut i: usize = attrs.len();
    assert(attrs@.subrange(0, attrs@.len() as int) =~= attrs@);
    while i > 0
        invariant
            i <= attrs@.len(),
            lookup(pairs_view(attrs@), key@) == lookup(pairs_view(attrs@.subrange(0, i as int)), key@),
        decreases i,
    {
        let ghost pre = pairs_view(attrs@.subrange(0, i as int));
        proof {
            assert(pre.last() == (attrs@[i - 1].0@, attrs@[i - 1].1@));
            assert(pre.drop_last() =~= pairs_view(attrs@.subrange(0, i - 1)));
        }
        let kv = str_chars(attrs[i - 1].0.as_str());
        if chars_eq_str(&kv, key) {
            return Some(attrs[i - 1].1.clone());
        }
        i -= 1;
    }
    None
}

// ---------------------------------------------------------------------------
// Byte ranges and URLs
// ---------------------------------------------------------------------------

/// The index of the first `c` in `s`, if any.
pub open spec fn find_char(s: Seq<char>, c: char) -> Option<int> {
    if exists|i: int| 0 <= i < s.len() && s[i] == c {
        Some(choose|i: int| 0 <= i < s.len() && s[i] == c && forall|j: int| 0 <= j < i ==> s[j] != c)
    } else {
        None
    }
}

/// Parses a decimal `usize` from trimmed text.
pub open spec fn parse_size(s: Seq<char>) -> Result<nat, IntErrorKind> {
    parse_unsigned(trim(s), usize::MAX as nat)
}

/// What `#EXT-X-BYTERANGE` (or a map's `BYTERANGE`) says: `length@offset`,
/// the offset falling back to where the previous range ended.
pub open spec fn byterange(value: Seq<char>, fallback: Option<usize>) -> Result<(nat, nat), (bool, Seq<char>)> {
    let (length_text, offset_text) = match find_char(value, '@') {
        Some(i) => (value.subrange(0, i), Some(value.subrange(i + 1, value.len() as int))),
        None => (value, None),
    };
    match parse_size(length_text) {
        Err(k) => Err((true, "invalid byte-range length: "@ + int_error_message(k))),
        Ok(length) => match offset_text {
            Some(o) => match parse_size(o) {
                Err(k) => Err((true, "invalid byte-range offset: "@ + int_error_message(k))),
                Ok(offset) => Ok((length, offset)),
            },
            None => match fallback {
                Some(f) => Ok((length, f as nat)),
                None => Err((true, "segment byterange omitted offset before any previous range"@)),
            },
        },
    }
}

pub fn find_char_exec(v: &Vec<char>, c: char) -> (r: Option<usize>)
    ensures
        match r {
            Some(i) => i < v.len() && find_char(v@, c) == Some(i as int),
            None => find_char(v@, c) is None,
        },
{
    let mut i: usize = 0;
    while i < v.len()
        invariant
            i <= v@.len(),
            forall|j: int| 0 <= j < i ==> v@[j] != c,
        decreases v.len() - i,
    {
        if v[i] == c {
            proof {
                let w = choose|k: int| 0 <= k < v@.len() && v@[k] == c && forall|j: int| 0 <= j < k ==> v@[j] != c;
                assert(0 <= i < v@.len() && v@[i as int] == c && forall|j: int| 0 <= j < i ==> v@[j] != c);
                if w < i {
                    assert(v@[w] != c);
                }
                if w > i {
                    assert(v@[i as int] != c);
                }
            }
            return Some(i);
        }
        i += 1;
    }
    None
}

fn protocol_error(prefix: &str, kind: IntErrorKind) -> (e: DownloadError)
    ensures
        error_view(e) == (true, prefix@ + int_error_message(kind)),
{
    DownloadError::Protocol(crate::text::concat2(prefix, kind.message()))
}

/// Reads a byte range `length[@offset]`.
pub fn parse_byterange(value: &str, fallback_offset: Option<usize>) -> (r: Result<(usize, usize), DownloadError>)
    ensures
        match byterange(value@, fallback_offset) {
            Ok((l, o)) => r matches Ok((a, b)) && a == l && b == o,
            Err(ev) => r matches Err(e) && error_view(e) == ev,
        },
{
    let v = str_chars(value);
    let (length_text, offset_text) = match find_char_exec(&v, '@') {
        Some(i) => (chars_range(&v, 0, i), Some(chars_range(&v, i + 1, v.len()))),
        None => (v.clone(), None),
    };
    proof {
        assert(v@ == value@);
    }
    let lt = trim_chars(&length_text);
    let length = match parse_unsigned_chars(&lt, usize::MAX as u64) {
        Ok(n) => n as usize,
        Err(k) => return Err(protocol_error("invalid byte-range length: ", k)),
    };
    let offset = match offset_text {
        Some(o) => {
            let ot = trim_chars(&o);
            match parse_unsigned_chars(&ot, usize::MAX as u64) {
                Ok(n) => n as usize,
                Err(k) => return Err(protocol_error("invalid byte-range offset: ", k)),
            }
        },
        None => match fallback_offset {
            Some(f) => f,
            None => return Err(
                DownloadError::Protocol(
                    "segment byterange omitted offset before any previous range".to_string(),
                ),
            ),
        },
    };
    Ok((length, offset))
}

/// Why a playlist URI could not be resolved.
#[derive(Debug)]
pub enum UrlJoinError {
    /// The base URL does not parse; the parser's message.
    InvalidBase(String),
    /// The reference does not resolve against it; the parser's message.
    InvalidReference(String),
}

/// Whether `reqwest::Url::parse` accepts `base`.
pub uninterp spec fn url_parses(base: Seq<char>) -> bool;

/// What `reqwest::Url::join` gives for `reference` against the parsed
/// `base`, as text; `None` when it fails.
pub uninterp spec fn url_joined(base: Seq<char>, reference: Seq<char>) -> Option<Seq<char>>;

/// Parses `base` with `reqwest::Url::parse`, joins `reference` to it with
/// `Url::join` and writes the result; the error messages are the parser's.
#[verifier::external_body]
fn join_url(base: &str, reference: &str) -> (r: Result<String, UrlJoinError>)
    ensures
        match r {
            Ok(s) => url_parses(base@) && url_joined(base@, reference@) == Some(s@),
            Err(UrlJoinError::InvalidBase(_)) => !url_parses(base@),
            Err(UrlJoinError::InvalidReference(_)) => url_parses(base@) && url_joined(
                base@,
                reference@,
            ) is None,
        },
{
    let url = match reqwest::Url::parse(base) {
        Ok(url) => url,
        Err(error) => return Err(UrlJoinError::InvalidBase(error.to_string())),
    };
    match url.join(reference) {
        Ok(joined) => Ok(joined.to_string()),
        Err(error) => Err(UrlJoinError::InvalidReference(error.to_string())),
    }
}

/// Resolves a playlist entry against the playlist's URL.
pub fn resolve_url(base_url: &str, value: &str) -> (r: Result<String, DownloadError>)
    ensures
        match r {
            Ok(s) => url_parses(base_url@) && url_joined(base_url@, value@) == Some(s@),
            Err(e) => e is Protocol && (!url_parses(base_url@) || url_joined(base_url@, value@) is None),
        },
{
    match join_url(base_url, value) {
        Ok(s) => Ok(s),
        Err(UrlJoinError::InvalidBase(m)) => Err(
            DownloadError::Protocol(crate::text::concat2("invalid playlist base url: ", m.as_str())),
        ),
        Err(UrlJoinError::InvalidReference(m)) => Err(
            DownloadError::Protocol(crate::text::concat2("invalid playlist uri: ", m.as_str())),
        ),
    }
}

// ---------------------------------------------------------------------------
// Master playlists and the choice of a variant
// ---------------------------------------------------------------------------

/// One stream of a master playlist.
#[derive(Debug)]
pub struct Variant {
    pub uri: String,
    pub average_bandwidth: u64,
    pub bandwidth: u64,
    pub codecs: String,
}

/// A variant as plain values: URI, average bandwidth, bandwidth, codecs.
pub open spec fn variant_view(v: Variant) -> (Seq<char>, u64, u64, Seq<char>) {
    (v.uri@, v.average_bandwidth, v.bandwidth, v.codecs@)
}

/// The label of a codec list: ALAC, AAC, or the list itself.
pub open spec fn codec_label_of(codecs: Seq<char>) -> Seq<char> {
    if contains(ascii_lower(codecs), "alac"@) {
        "ALAC"@
    } else if contains(ascii_lower(codecs), "mp4a"@) {
        "AAC"@
    } else {
        codecs
    }
}

impl Variant {
    /// Whether this variant carries AAC (its codecs mention `mp4a`).
    pub fn is_aac(&self) -> (b: bool)
        ensures
            b == contains(ascii_lower(self.codecs@), "mp4a"@),
    {
        let c = str_chars(self.codecs.as_str());
        let lower = lower_chars(&c);
        contains_chars(&lower, &str_chars("mp4a"))
    }

    /// The label of this variant's codec.
    pub fn codec_label(&self) -> (s: String)
        ensures
            s@ == codec_label_of(self.codecs@),
    {
        let c = str_chars(self.codecs.as_str());
        let lower = lower_chars(&c);
        if contains_chars(&lower, &str_chars("alac")) {
            "ALAC".to_string()
        } else if contains_chars(&lower, &str_chars("mp4a")) {
            "AAC".to_string()
        } else {
            self.codecs.clone()
        }
    }
}

/// Whether `a` ranks at least as high as `b`: by average bandwidth, then by
/// bandwidth.
pub open spec fn ranks_at_least(a: (Seq<char>, u64, u64, Seq<char>), b: (Seq<char>, u64, u64, Seq<char>)) -> bool {
    a.1 > b.1 || (a.1 == b.1 && a.2 >= b.2)
}

/// Whether a variant's codecs mention `want` (any variant when `None`).
pub open spec fn codec_matches(v: (Seq<char>, u64, u64, Seq<char>), want: Option<Seq<char>>) -> bool {
    match want {
        Some(w) => contains(ascii_lower(v.3), w),
        None => true,
    }
}

/// The highest-ranking variant among those matching `want`, the last one
/// among equals (as `Iterator::max_by_key` picks it).
pub open spec fn best_variant(vs: Seq<(Seq<char>, u64, u64, Seq<char>)>, want: Option<Seq<char>>) -> Option<int>
    decreases vs.len(),
{
    if vs.len() == 0 {
        None
    } else {
        let prev = best_variant(vs.drop_last(), want);
        let i = vs.len() - 1;
        if codec_matches(vs[i], want) && (prev is None || ranks_at_least(vs[i], vs[prev.unwrap()])) {
            Some(i)
        } else {
            prev
        }
    }
}

/// The codec filter that a requested codec names: `alac`, `aac` (streams
/// of `mp4a`), or any for `auto` and empty; `Err` holds an unknown name.
pub open spec fn codec_filter(requested: Option<&str>) -> Result<Option<Seq<char>>, Seq<char>> {
    let name = match requested {
        Some(r) => ascii_lower(trim(r@)),
        None => "alac"@,
    };
    if name == "alac"@ {
        Ok(Some("alac"@))
    } else if name == "aac"@ {
        Ok(Some("mp4a"@))
    } else if name == "auto"@ || name == ""@ {
        Ok(None)
    } else {
        Err(name)
    }
}

/// Which variant to download: the best of the requested codec, else the best
/// of all; the index, or the error's kind and message.
pub open spec fn variant_choice(vs: Seq<(Seq<char>, u64, u64, Seq<char>)>, requested: Option<&str>) -> Result<int, (bool, Seq<char>)> {
    match codec_filter(requested) {
        Err(name) => Err((true, "unsupported codec selection: "@ + name)),
        Ok(f) => match best_variant(vs, f) {
            Some(i) => Ok(i),
            None => match best_variant(vs, None) {
                Some(i) => Ok(i),
                None => Err((false, "failed to choose a playlist variant"@)),
            },
        },
    }
}

/// The view of a list of variants.
pub open spec fn variants_view(vs: Seq<Variant>) -> Seq<(Seq<char>, u64, u64, Seq<char>)> {
    vs.map_values(|v: Variant| variant_view(v))
}

fn best_index(variants: &[Variant], want: &Option<Vec<char>>) -> (r: Option<usize>)
    ensures
        match best_variant(variants_view(variants@), match want { Some(w) => Some(w@), None => None }) {
            Some(i) => r == Some(i as usize),
            None => r is None,
        },
{
    let ghost vs = variants_view(variants@);
    let ghost wv: Option<Seq<char>> = match want {
        Some(w) => Some(w@),
        None => None,
    };
    let mut best: Option<usize> = None;
    let mut i: usize = 0;
    while i < variants.len()
        invariant
            i <= variants@.len(),
            vs == variants_view(variants@),
            vs.len() == variants@.len(),
            wv == (match want { Some(w) => Some(w@), None => None::<Seq<char>> }),
            match best_variant(vs.subrange(0, i as int), wv) {
                Some(k) => best == Some(k as usize) && k < i,
                None => best is None,
            },
            best matches Some(b) ==> b < i,
        decreases variants.len() - i,
    {
        let ghost pre = vs.subrange(0, i as int);
        let ghost next = vs.subrange(0, i + 1);
        proof {
            assert(next.drop_last() =~= pre);
            assert(next[i as int] == variant_view(variants@[i as int]));
            lemma_best_variant_in(pre, wv);
            if let Some(k) = best_variant(pre, wv) {
                assert(next[k] == pre[k]);
            }
        }
        let v = &variants[i];
        let matches = match want {
            Some(w) => {
                let c = str_chars(v.codecs.as_str());
                let lower = lower_chars(&c);
                contains_chars(&lower, w)
            },
            None => true,
        };
        if matches {
            let better = match best {
                None => true,
                Some(b) => {
                    let bv = &variants[b];
                    v.average_bandwidth > bv.average_bandwidth || (v.average_bandwidth
                        == bv.average_bandwidth && v.bandwidth >= bv.bandwidth)
                },
            };
            if better {
                best = Some(i);
            }
        }
        i += 1;
    }
    assert(vs.subrange(0, vs.len() as int) =~= vs);
    best
}

/// Picks the variant to download for the requested codec (ALAC when none is
/// requested).
pub fn choose_variant<'a>(variants: &'a [Variant], requested_codec: Option<&str>) -> (r: Result<&'a Variant, DownloadError>)
    ensures
        match variant_choice(variants_view(variants@), requested_codec) {
            Ok(i) => r matches Ok(v) && 0 <= i < variants@.len() && *v == variants@[i],
            Err(ev) => r matches Err(e) && error_view(e) == ev,
        },
{
    let name: Vec<char> = match requested_codec {
        Some(r) => {
            let v = str_chars(r);
            let t = trim_chars(&v);
            lower_chars(&t)
        },
        None => str_chars("alac"),
    };
    let filter: Option<Vec<char>> = if chars_eq_str(&name, "alac") {
        Some(str_chars("alac"))
    } else if chars_eq_str(&name, "aac") {
        Some(str_chars("mp4a"))
    } else if chars_eq_str(&name, "auto") || chars_eq_str(&name, "") {
        None
    } else {
        let mut m: Vec<char> = Vec::new();
        push_str(&mut m, "unsupported codec selection: ");
        push_all(&mut m, &name);
        assert(m@ =~= "unsupported codec selection: "@ + name@);
        return Err(DownloadError::Protocol(chars_to_string(&m)));
    };
    proof {
        lemma_best_variant_in(variants_view(variants@), match &filter { Some(w) => Some(w@), None => None });
        lemma_best_variant_in(variants_view(variants@), None);
    }
    match best_index(variants, &filter) {
        Some(i) => Ok(&variants[i]),
        None => match best_index(variants, &None) {
            Some(i) => Ok(&variants[i]),
            None => Err(DownloadError::Message("failed to choose a playlist variant".to_string())),
        },
    }
}

proof fn lemma_best_variant_in(vs: Seq<(Seq<char>, u64, u64, Seq<char>)>, want: Option<Seq<char>>)
    ensures
        best_variant(vs, want) matches Some(i) ==> 0 <= i < vs.len(),
    decreases vs.len(),
{
    if vs.len() > 0 {
        lemma_best_variant_in(vs.drop_last(), want);
    }
}

/// The tag that announces a variant.
pub const STREAM_INF: &'static str = "#EXT-X-STREAM-INF:";

/// A bandwidth attribute as a number, 0 when absent or not a number.
pub open spec fn bandwidth_value(v: Option<Seq<char>>) -> u64 {
    match v {
        Some(t) => match parse_unsigned(t, u64::MAX as nat) {
            Ok(n) => n as u64,
            Err(_) => 0,
        },
        None => 0,
    }
}

/// The attribute that gives a variant's average bandwidth: the average, else
/// the peak.
pub open spec fn average_source(attrs: Seq<(Seq<char>, Seq<char>)>) -> Option<Seq<char>> {
    match lookup(attrs, "AVERAGE-BANDWIDTH"@) {
        Some(a) => Some(a),
        None => lookup(attrs, "BANDWIDTH"@),
    }
}

/// The variant described by `attrs` at `uri`.
pub open spec fn variant_from(attrs: Seq<(Seq<char>, Seq<char>)>, uri: Seq<char>) -> (Seq<char>, u64, u64, Seq<char>) {
    (
        uri,
        bandwidth_value(average_source(attrs)),
        bandwidth_value(lookup(attrs, "BANDWIDTH"@)),
        match lookup(attrs, "CODECS"@) {
            Some(c) => c,
            None => Seq::empty(),
        },
    )
}

/// `reference` resolved against `base`, when both parse.
pub open spec fn resolved(base: Seq<char>, reference: Seq<char>) -> Option<Seq<char>> {
    if url_parses(base) {
        url_joined(base, reference)
    } else {
        None
    }
}

/// A playlist failure: whether it is a protocol error, and its message when
/// it is fixed (a URL failure carries the URL parser's message).
pub type FailureView = (bool, Option<Seq<char>>);

/// Whether `e` is the failure `f`.
pub open spec fn is_failure(e: DownloadError, f: FailureView) -> bool {
    &&& error_view(e).0 == f.0
    &&& (f.1 matches Some(m) ==> error_view(e).1 == m)
}

/// The variants of the trimmed lines `lines`, `pending` holding the
/// attributes of the last `#EXT-X-STREAM-INF` not yet followed by its URI.
pub open spec fn master_fold(
    base: Seq<char>,
    lines: Seq<Seq<char>>,
    pending: Option<Seq<(Seq<char>, Seq<char>)>>,
) -> Result<Seq<(Seq<char>, u64, u64, Seq<char>)>, FailureView>
    decreases lines.len(),
{
    if lines.len() == 0 {
        Ok(Seq::empty())
    } else {
        let l = lines[0];
        let rest = lines.drop_first();
        if l.len() == 0 {
            master_fold(base, rest, pending)
        } else if starts_with(l, STREAM_INF@) {
            master_fold(base, rest, Some(attr_list(l.subrange(STREAM_INF@.len() as int, l.len() as int))))
        } else if l[0] == '#' {
            master_fold(base, rest, pending)
        } else {
            match pending {
                None => master_fold(base, rest, None),
                Some(attrs) => match resolved(base, l) {
                    None => Err((true, None)),
                    Some(uri) => match master_fold(base, rest, None) {
                        Err(e) => Err(e),
                        Ok(tail) => Ok(seq![variant_from(attrs, uri)] + tail),
                    },
                },
            }
        }
    }
}

/// The trimmed lines of a text.
pub open spec fn text_lines(text: Seq<char>) -> Seq<Seq<char>> {
    split_lines(text).map_values(|l: Seq<char>| trim(l))
}

/// The variants of a master playlist; at least one is required.
pub open spec fn master_playlist(base: Seq<char>, text: Seq<char>) -> Result<Seq<(Seq<char>, u64, u64, Seq<char>)>, FailureView> {
    match master_fold(base, text_lines(text), None) {
        Ok(vs) => if vs.len() == 0 {
            Err((false, Some("master playlist did not contain any variants"@)))
        } else {
            Ok(vs)
        },
        Err(e) => Err(e),
    }
}

/// `acc` followed by the outcome `r`.
pub open spec fn after<T>(acc: Seq<T>, r: Result<Seq<T>, FailureView>) -> Result<Seq<T>, FailureView> {
    match r {
        Ok(t) => Ok(acc + t),
        Err(e) => Err(e),
    }
}

/// The attribute pairs, if any, as plain values.
pub open spec fn pending_view(p: Option<Vec<(String, String)>>) -> Option<Seq<(Seq<char>, Seq<char>)>> {
    match p {
        Some(v) => Some(pairs_view(v@)),
        None => None,
    }
}

fn bandwidth_of(v: Option<String>) -> (n: u64)
    ensures
        n == bandwidth_value(match v { Some(s) => Some(s@), None => None }),
{
    match v {
        Some(s) => match crate::text::parse_u64(s.as_str()) {
            Ok(n) => n,
            Err(_) => 0,
        },
        None => 0,
    }
}

/// The variants of a master playlist at `base_url`.
pub fn parse_master_playlist(base_url: &str, text: &str) -> (r: Result<Vec<Variant>, DownloadError>)
    ensures
        match master_playlist(base_url@, text@) {
            Ok(vs) => r matches Ok(v) && variants_view(v@) == vs,
            Err(f) => r matches Err(e) && is_failure(e, f),
        },
{
    let lines = trimmed_lines(text);
    let ghost ls = lines_view(lines@);
    let mut variants: Vec<Variant> = Vec::new();
    let mut pending: Option<Vec<(String, String)>> = None;
    let prefix = str_chars(STREAM_INF);
    let mut i: usize = 0;
    proof {
        assert(ls.subrange(0, ls.len() as int) =~= ls);
        assert(variants_view(variants@) =~= Seq::<(Seq<char>, u64, u64, Seq<char>)>::empty());
        let r = master_fold(base_url@, ls, None);
        match r {
            Ok(t) => {
                assert(Seq::<(Seq<char>, u64, u64, Seq<char>)>::empty() + t =~= t);
            },
            Err(_) => {},
        }
    }
    while i < lines.len()
        invariant
            i <= lines@.len(),
            ls == lines_view(lines@),
            ls.len() == lines@.len(),
            ls == text_lines(text@),
            prefix@ == STREAM_INF@,
            master_fold(base_url@, ls, None) == after(
                variants_view(variants@),
                master_fold(base_url@, ls.subrange(i as int, ls.len() as int), pending_view(pending)),
            ),
        decreases lines.len() - i,
    {
        let ghost acc = variants_view(variants@);
        let ghost cur = ls.subrange(i as int, ls.len() as int);
        let ghost rest = ls.subrange(i + 1, ls.len() as int);
        proof {
            assert(cur.drop_first() =~= rest);
            assert(cur[0] == lines@[i as int]@);
        }
        let line = &lines[i];
        if line.len() == 0 {
        } else if crate::text::starts_with_chars(line, &prefix) {
            let attr_text = chars_to_string(&chars_range(line, prefix.len(), line.len()));
            pending = Some(parse_attrs(attr_text.as_str()));
        } else if line[0] == '#' {
        } else {
            match pending {
                None => {},
                Some(attrs) => {
                    let uri_text = chars_to_string(line);
                    let uri = match resolve_url(base_url, uri_text.as_str()) {
                        Ok(u) => u,
                        Err(e) => {
                            proof {
                                assert(resolved(base_url@, line@) is None);
                            }
                            return Err(e);
                        },
                    };
                    let avg_text = match attr_get(&attrs, "AVERAGE-BANDWIDTH") {
                        Some(a) => Some(a),
                        None => attr_get(&attrs, "BANDWIDTH"),
                    };
                    let average_bandwidth = bandwidth_of(avg_text);
                    let bandwidth = bandwidth_of(attr_get(&attrs, "BANDWIDTH"));
                    let codecs = match attr_get(&attrs, "CODECS") {
                        Some(c) => c,
                        None => String::new(),
                    };
                    let ghost x = variant_from(pairs_view(attrs@), uri@);
                    let v = Variant { uri, average_bandwidth, bandwidth, codecs };
                    proof {
                        assert(variant_view(v) == x);
                    }
                    variants.push(v);
                    pending = None;
                    proof {
                        assert(variants_view(variants@) =~= acc.push(x));
                        match master_fold(base_url@, rest, None) {
                            Ok(t) => {
                                assert(acc + (seq![x] + t) =~= acc.push(x) + t);
                            },
                            Err(_) => {},
                        }
                    }
                },
            }
        }
        i += 1;
    }
    proof {
        assert(ls.subrange(ls.len() as int, ls.len() as int) =~= Seq::<Seq<char>>::empty());
        assert(variants_view(variants@) + Seq::<(Seq<char>, u64, u64, Seq<char>)>::empty()
            =~= variants_view(variants@));
    }
    if variants.len() == 0 {
        return Err(
            DownloadError::Message("master playlist did not contain any variants".to_string()),
        );
    }
    Ok(variants)
}

// ---------------------------------------------------------------------------
// Media playlists
// ---------------------------------------------------------------------------

/// The byte range of a resource.
#[derive(Debug)]
pub struct ByteRangeSegment {
    pub uri: String,
    pub length: usize,
    pub offset: usize,
}

/// One media segment: its position, where its bytes are, its duration as
/// written, and the key it is encrypted with.
#[derive(Debug)]
pub struct MediaSegment {
    pub index: usize,
    pub uri: String,
    pub length: usize,
    pub offset: usize,
    pub duration: String,
    pub key_uri: String,
}

/// The init section and the media segments of a track.
#[derive(Debug)]
pub struct MediaPlaylist {
    pub init: ByteRangeSegment,
    pub segments: Vec<MediaSegment>,
}

/// An init section as plain values: URI, length, offset.
pub type InitView = (Seq<char>, usize, usize);

/// A segment as plain values: index, URI, length, offset, duration text, key.
pub type SegmentView = (usize, Seq<char>, usize, usize, Seq<char>, Seq<char>);

/// What the parser remembers between lines: the current key, and the
/// duration, length and offset waiting for the next segment, where the last
/// range ended, and the init section.
pub type MediaState = (
    Option<Seq<char>>,
    Option<Seq<char>>,
    Option<usize>,
    Option<usize>,
    Option<usize>,
    Option<InitView>,
);

/// `a + b` wrapped to the width of `usize`.
pub open spec fn wrapped_sum(a: usize, b: usize) -> usize {
    if a + b > usize::MAX {
        (a + b - usize::MAX - 1) as usize
    } else {
        (a + b) as usize
    }
}

/// The part of `s` before its first comma.
pub open spec fn first_field(s: Seq<char>) -> Seq<char> {
    match find_char(s, ',') {
        Some(i) => s.subrange(0, i),
        None => s,
    }
}

/// `l` after the tag `tag`.
pub open spec fn after_tag(l: Seq<char>, tag: Seq<char>) -> Seq<char> {
    l.subrange(tag.len() as int, l.len() as int)
}

/// The segments of the trimmed lines `lines`, numbered from `n`, and the init
/// section at the end; or the first failure.
pub open spec fn media_fold(base: Seq<char>, lines: Seq<Seq<char>>, st: MediaState, n: nat) -> Result<
    (Option<InitView>, Seq<SegmentView>),
    FailureView,
>
    decreases lines.len(),
{
    if lines.len() == 0 {
        Ok((st.5, Seq::empty()))
    } else {
        let l = lines[0];
        let rest = lines.drop_first();
        if l.len() == 0 {
            media_fold(base, rest, st, n)
        } else if starts_with(l, "#EXT-X-KEY:"@) {
            let attrs = attr_list(after_tag(l, "#EXT-X-KEY:"@));
            media_fold(base, rest, (lookup(attrs, "URI"@), st.1, st.2, st.3, st.4, st.5), n)
        } else if starts_with(l, "#EXT-X-MAP:"@) {
            let attrs = attr_list(after_tag(l, "#EXT-X-MAP:"@));
            match lookup(attrs, "BYTERANGE"@) {
                None => Err((true, Some("media playlist init map omitted BYTERANGE"@))),
                Some(br) => match byterange(br, None) {
                    Err(ev) => Err((ev.0, Some(ev.1))),
                    Ok((len, off)) => match lookup(attrs, "URI"@) {
                        None => Err((true, Some("media playlist init map omitted URI"@))),
                        Some(u) => match resolved(base, u) {
                            None => Err((true, None)),
                            Some(uri) => media_fold(
                                base,
                                rest,
                                (
                                    st.0,
                                    st.1,
                                    st.2,
                                    st.3,
                                    Some(wrapped_sum(off as usize, len as usize)),
                                    Some((uri, len as usize, off as usize)),
                                ),
                                n,
                            ),
                        },
                    },
                },
            }
        } else if starts_with(l, "#EXTINF:"@) {
            let d = first_field(after_tag(l, "#EXTINF:"@));
            if !is_float_text(d) {
                Err((true, Some("invalid segment duration: "@ + float_error_message(d))))
            } else {
                media_fold(base, rest, (st.0, Some(d), st.2, st.3, st.4, st.5), n)
            }
        } else if starts_with(l, "#EXT-X-BYTERANGE:"@) {
            match byterange(after_tag(l, "#EXT-X-BYTERANGE:"@), st.4) {
                Err(ev) => Err((ev.0, Some(ev.1))),
                Ok((len, off)) => media_fold(
                    base,
                    rest,
                    (
                        st.0,
                        st.1,
                        Some(len as usize),
                        Some(off as usize),
                        Some(wrapped_sum(off as usize, len as usize)),
                        st.5,
                    ),
                    n,
                ),
            }
        } else if l[0] == '#' {
            media_fold(base, rest, st, n)
        } else {
            match (st.0, st.2, st.3, st.1) {
                (None, _, _, _) => Err((true, Some("segment appeared before any EXT-X-KEY"@))),
                (_, None, _, _) => Err((true, Some("segment appeared before byte-range length"@))),
                (_, _, None, _) => Err((true, Some("segment appeared before byte-range offset"@))),
                (_, _, _, None) => Err((true, Some("segment appeared before duration"@))),
                (Some(key), Some(len), Some(off), Some(d)) => match resolved(base, l) {
                    None => Err((true, None)),
                    Some(uri) => match media_fold(
                        base,
                        rest,
                        (st.0, None, None, None, st.4, st.5),
                        n + 1,
                    ) {
                        Err(e) => Err(e),
                        Ok((init, tail)) => Ok((init, seq![(n as usize, uri, len, off, d, key)] + tail)),
                    },
                },
            }
        }
    }
}

/// The state before the first line.
pub open spec fn media_start() -> MediaState {
    (None, None, None, None, None, None)
}

/// The init section and segments of a media playlist; both are required.
pub open spec fn media_playlist(base: Seq<char>, text: Seq<char>) -> Result<(InitView, Seq<SegmentView>), FailureView> {
    match media_fold(base, text_lines(text), media_start(), 0) {
        Err(e) => Err(e),
        Ok((None, _)) => Err((true, Some("media playlist did not include EXT-X-MAP"@))),
        Ok((Some(init), segs)) => if segs.len() == 0 {
            Err((true, Some("media playlist did not include any media segments"@)))
        } else {
            Ok((init, segs))
        },
    }
}

/// The view of a segment.
pub open spec fn segment_view(s: MediaSegment) -> SegmentView {
    (s.index, s.uri@, s.length, s.offset, s.duration@, s.key_uri@)
}

/// The view of the segments.
pub open spec fn segments_view(v: Seq<MediaSegment>) -> Seq<SegmentView> {
    v.map_values(|s: MediaSegment| segment_view(s))
}

/// The view of an optional string.
pub open spec fn opt_chars(o: Option<String>) -> Option<Seq<char>> {
    match o {
        Some(s) => Some(s@),
        None => None,
    }
}

/// The view of an init section.
pub open spec fn init_view(o: Option<ByteRangeSegment>) -> Option<InitView> {
    match o {
        Some(b) => Some((b.uri@, b.length, b.offset)),
        None => None,
    }
}

/// `acc` before the segments of the outcome `r`.
pub open spec fn after_segments(acc: Seq<SegmentView>, r: Result<(Option<InitView>, Seq<SegmentView>), FailureView>) -> Result<
    (Option<InitView>, Seq<SegmentView>),
    FailureView,
> {
    match r {
        Ok((init, t)) => Ok((init, acc + t)),
        Err(e) => Err(e),
    }
}

fn wrapping_sum(a: usize, b: usize) -> (r: usize)
    ensures
        r == wrapped_sum(a, b),
{
    if a <= usize::MAX - b {
        a + b
    } else {
        a - (usize::MAX - b) - 1
    }
}

fn tag_rest(line: &Vec<char>, tag: &str) -> (r: Option<String>)
    ensures
        match r {
            Some(s) => starts_with(line@, tag@) && s@ == after_tag(line@, tag@),
            None => !starts_with(line@, tag@),
        },
{
    let t = str_chars(tag);
    if crate::text::starts_with_chars(line, &t) {
        Some(chars_to_string(&chars_range(line, t.len(), line.len())))
    } else {
        None
    }
}

fn first_field_chars(v: &Vec<char>) -> (r: Vec<char>)
    ensures
        r@ == first_field(v@),
{
    match find_char_exec(v, ',') {
        Some(i) => chars_range(v, 0, i),
        None => {
            let r = chars_range(v, 0, v.len());
            assert(r@ =~= v@);
            r
        },
    }
}

fn failure(fixed: bool, message: &str) -> (e: DownloadError)
    ensures
        error_view(e) == (fixed, message@),
{
    if fixed {
        DownloadError::Protocol(message.to_string())
    } else {
        DownloadError::Message(message.to_string())
    }
}

/// The init section and segments of a media playlist at `base_url`.
#[verifier::rlimit(50)]
pub fn parse_media_playlist(base_url: &str, text: &str) -> (r: Result<MediaPlaylist, DownloadError>)
    ensures
        match media_playlist(base_url@, text@) {
            Ok((init, segs)) => r matches Ok(p) && (p.init.uri@, p.init.length, p.init.offset)
                == init && segments_view(p.segments@) == segs,
            Err(f) => r matches Err(e) && is_failure(e, f),
        },
{
    let lines = trimmed_lines(text);
    let ghost ls = lines_view(lines@);
    let mut key: Option<String> = None;
    let mut duration: Option<String> = None;
    let mut pending_length: Option<usize> = None;
    let mut pending_offset: Option<usize> = None;
    let mut next_offset: Option<usize> = None;
    let mut init: Option<ByteRangeSegment> = None;
    let mut segments: Vec<MediaSegment> = Vec::new();
    let mut i: usize = 0;
    proof {
        assert(ls.subrange(0, ls.len() as int) =~= ls);
        match media_fold(base_url@, ls, media_start(), 0) {
            Ok((a, t)) => {
                assert(Seq::<SegmentView>::empty() + t =~= t);
            },
            Err(_) => {},
        }
        assert(segments_view(segments@) =~= Seq::<SegmentView>::empty());
    }
    while i < lines.len()
        invariant
            i <= lines@.len(),
            ls == lines_view(lines@),
            ls.len() == lines@.len(),
            ls == text_lines(text@),
            segments@.len() <= i,
            media_fold(base_url@, ls, media_start(), 0) == after_segments(
                segments_view(segments@),
                media_fold(
                    base_url@,
                    ls.subrange(i as int, ls.len() as int),
                    (
                        opt_chars(key),
                        opt_chars(duration),
                        pending_length,
                        pending_offset,
                        next_offset,
                        init_view(init),
                    ),
                    segments@.len() as nat,
                ),
            ),
        decreases lines.len() - i,
    {
        let ghost acc = segments_view(segments@);
        let ghost cur = ls.subrange(i as int, ls.len() as int);
        let ghost rest = ls.subrange(i + 1, ls.len() as int);
        proof {
            assert(cur.drop_first() =~= rest);
            assert(cur[0] == lines@[i as int]@);
        }
        let line = &lines[i];
        if line.len() == 0 {
        } else if let Some(attr_text) = tag_rest(line, "#EXT-X-KEY:") {
            let attrs = parse_attrs(attr_text.as_str());
            key = attr_get(&attrs, "URI");
        } else if let Some(attr_text) = tag_rest(line, "#EXT-X-MAP:") {
            let attrs = parse_attrs(attr_text.as_str());
            let byterange_text = match attr_get(&attrs, "BYTERANGE") {
                Some(b) => b,
                None => return Err(failure(true, "media playlist init map omitted BYTERANGE")),
            };
            let (length, offset) = match parse_byterange(byterange_text.as_str(), None) {
                Ok(p) => p,
                Err(e) => return Err(e),
            };
            let uri_text = match attr_get(&attrs, "URI") {
                Some(u) => u,
                None => return Err(failure(true, "media playlist init map omitted URI")),
            };
            let uri = match resolve_url(base_url, uri_text.as_str()) {
                Ok(u) => u,
                Err(e) => return Err(e),
            };
            next_offset = Some(wrapping_sum(offset, length));
            init = Some(ByteRangeSegment { uri, length, offset });
        } else if let Some(rest_text) = tag_rest(line, "#EXTINF:") {
            let rv = str_chars(rest_text.as_str());
            let d = first_field_chars(&rv);
            if !crate::text::float_text_ok(&d) {
                let message = if d.len() == 0 {
                    "cannot parse float from empty string"
                } else {
                    "invalid float literal"
                };
                let full = crate::text::concat2("invalid segment duration: ", message);
                return Err(DownloadError::Protocol(full));
            }
            duration = Some(chars_to_string(&d));
        } else if let Some(range_text) = tag_rest(line, "#EXT-X-BYTERANGE:") {
            let (length, offset) = match parse_byterange(range_text.as_str(), next_offset) {
                Ok(p) => p,
                Err(e) => return Err(e),
            };
            pending_length = Some(length);
            pending_offset = Some(offset);
            next_offset = Some(wrapping_sum(offset, length));
        } else if line[0] == '#' {
        } else {
            let key_uri = match &key {
                Some(k) => k.clone(),
                None => return Err(failure(true, "segment appeared before any EXT-X-KEY")),
            };
            let length = match pending_length {
                Some(l) => l,
                None => return Err(failure(true, "segment appeared before byte-range length")),
            };
            let offset = match pending_offset {
                Some(o) => o,
                None => return Err(failure(true, "segment appeared before byte-range offset")),
            };
            let dur = match duration {
                Some(d) => d,
                None => return Err(failure(true, "segment appeared before duration")),
            };
            let uri_text = chars_to_string(line);
            let uri = match resolve_url(base_url, uri_text.as_str()) {
                Ok(u) => u,
                Err(e) => return Err(e),
            };
            let ghost x: SegmentView = (segments@.len() as usize, uri@, length, offset, dur@, key_uri@);
            let seg = MediaSegment {
                index: segments.len(),
                uri,
                length,
                offset,
                duration: dur,
                key_uri,
            };
            proof {
                assert(segment_view(seg) == x);
            }
            segments.push(seg);
            duration = None;
            pending_length = None;
            pending_offset = None;
            proof {
                assert(segments_view(segments@) =~= acc.push(x));
                match media_fold(
                    base_url@,
                    rest,
                    (opt_chars(key), None, None, None, next_offset, init_view(init)),
                    (acc.len() + 1) as nat,
                ) {
                    Ok((a, t)) => {
                        assert(acc + (seq![x] + t) =~= acc.push(x) + t);
                    },
                    Err(_) => {},
                }
            }
        }
        i += 1;
    }
    proof {
        assert(ls.subrange(ls.len() as int, ls.len() as int) =~= Seq::<Seq<char>>::empty());
        assert(segments_view(segments@) + Seq::<SegmentView>::empty() =~= segments_view(segments@));
    }
    let init = match init {
        Some(b) => b,
        None => return Err(failure(true, "media playlist did not include EXT-X-MAP")),
    };
    if segments.len() == 0 {
        return Err(failure(true, "media playlist did not include any media segments"));
    }
    Ok(MediaPlaylist { init, segments })
}

/// Law: the chosen variant matches the codec filter and ranks at least as
/// high as every other variant that matches it; none is chosen only when
/// none matches.
pub proof fn law_best_variant_is_best(vs: Seq<(Seq<char>, u64, u64, Seq<char>)>, want: Option<Seq<char>>)
    ensures
        match best_variant(vs, want) {
            Some(i) => 0 <= i < vs.len() && codec_matches(vs[i], want) && forall|j: int|
                0 <= j < vs.len() && codec_matches(#[trigger] vs[j], want) ==> ranks_at_least(vs[i], vs[j]),
            None => forall|j: int| 0 <= j < vs.len() ==> !codec_matches(#[trigger] vs[j], want),
        },
    decreases vs.len(),
{
    if vs.len() > 0 {
        let pre = vs.drop_last();
        law_best_variant_is_best(pre, want);
        let last = vs.len() - 1;
        match best_variant(vs, want) {
            Some(i) => {
                assert forall|j: int| 0 <= j < vs.len() && codec_matches(#[trigger] vs[j], want) implies ranks_at_least(
                    vs[i],
                    vs[j],
                ) by {
                    if j < last {
                        assert(pre[j] == vs[j]);
                        if let Some(p) = best_variant(pre, want) {
                            assert(pre[p] == vs[p]);
                        }
                    }
                }
            },
            None => {
                assert forall|j: int| 0 <= j < vs.len() implies !codec_matches(#[trigger] vs[j], want) by {
                    if j < last {
                        assert(pre[j] == vs[j]);
                    }
                }
            },
        }
    }
}

/// Law: the segments of a media playlist are numbered in order from `n`.
pub proof fn law_segments_numbered(base: Seq<char>, lines: Seq<Seq<char>>, st: MediaState, n: nat)
    requires
        media_fold(base, lines, st, n) is Ok,
        n + lines.len() <= usize::MAX,
    ensures
        ({
            let segs = media_fold(base, lines, st, n)->Ok_0.1;
            &&& segs.len() <= lines.len()
            &&& forall|k: int| 0 <= k < segs.len() ==> (#[trigger] segs[k]).0 == n + k
        }),
    decreases lines.len(),
{
    reveal_strlit("#EXT-X-KEY:");
    reveal_strlit("#EXT-X-MAP:");
    reveal_strlit("#EXTINF:");
    reveal_strlit("#EXT-X-BYTERANGE:");
    if lines.len() > 0 {
        let l = lines[0];
        let rest = lines.drop_first();
        if l.len() == 0 {
            law_segments_numbered(base, rest, st, n);
        } else if starts_with(l, "#EXT-X-KEY:"@) {
            let attrs = attr_list(after_tag(l, "#EXT-X-KEY:"@));
            law_segments_numbered(base, rest, (lookup(attrs, "URI"@), st.1, st.2, st.3, st.4, st.5), n);
        } else if starts_with(l, "#EXT-X-MAP:"@) {
            let attrs = attr_list(after_tag(l, "#EXT-X-MAP:"@));
            let br = lookup(attrs, "BYTERANGE"@).unwrap();
            let (len, off) = byterange(br, None)->Ok_0;
            let u = lookup(attrs, "URI"@).unwrap();
            let uri = resolved(base, u).unwrap();
            law_segments_numbered(
                base,
                rest,
                (st.0, st.1, st.2, st.3, Some(wrapped_sum(off as usize, len as usize)), Some((uri, len as usize, off as usize))),
                n,
            );
        } else if starts_with(l, "#EXTINF:"@) {
            let d = first_field(after_tag(l, "#EXTINF:"@));
            law_segments_numbered(base, rest, (st.0, Some(d), st.2, st.3, st.4, st.5), n);
        } else if starts_with(l, "#EXT-X-BYTERANGE:"@) {
            let (len, off) = byterange(after_tag(l, "#EXT-X-BYTERANGE:"@), st.4)->Ok_0;
            law_segments_numbered(
                base,
                rest,
                (st.0, st.1, Some(len as usize), Some(off as usize), Some(wrapped_sum(off as usize, len as usize)), st.5),
                n,
            );
        } else if l[0] == '#' {
            law_segments_numbered(base, rest, st, n);
        } else {
            law_segments_numbered(base, rest, (st.0, None, None, None, st.4, st.5), n + 1);
            let tail = media_fold(base, rest, (st.0, None, None, None, st.4, st.5), n + 1)->Ok_0.1;
            let segs = media_fold(base, lines, st, n)->Ok_0.1;
            assert forall|k: int| 0 <= k < segs.len() implies (#[trigger] segs[k]).0 == n + k by {
                if k > 0 {
                    assert(segs[k] == tail[k - 1]);
                }
            }
        }
    }
}

/// Law: the variant chosen for a request has the highest average bandwidth
/// among the variants of the requested codec (among all variants when none
/// has that codec), and among those with that average the highest peak
/// bandwidth; it is of the requested codec whenever one is.
pub proof fn law_chosen_variant_has_highest_average(
    vs: Seq<(Seq<char>, u64, u64, Seq<char>)>,
    requested: Option<&str>,
)
    ensures
        match (variant_choice(vs, requested), codec_filter(requested)) {
            (Ok(i), Ok(f)) => {
                &&& 0 <= i < vs.len()
                &&& (exists|j: int| 0 <= j < vs.len() && #[trigger] codec_matches(vs[j], f)) ==> codec_matches(vs[i], f)
                &&& forall|j: int|
                    0 <= j < vs.len() && (codec_matches(vs[i], f) ==> codec_matches(#[trigger] vs[j], f)) ==> {
                        ||| vs[j].1 < vs[i].1
                        ||| (vs[j].1 == vs[i].1 && vs[j].2 <= vs[i].2)
                    }
            },
            (Ok(_), Err(_)) => false,
            (Err(_), Ok(f)) => vs.len() == 0,
            (Err(_), Err(_)) => true,
        },
{
    match codec_filter(requested) {
        Ok(f) => {
            law_best_variant_is_best(vs, f);
            law_best_variant_is_best(vs, None);
            match best_variant(vs, f) {
                Some(i) => {
                    assert forall|j: int|
                        0 <= j < vs.len() && (codec_matches(vs[i], f) ==> codec_matches(#[trigger] vs[j], f)) implies {
                        ||| vs[j].1 < vs[i].1
                        ||| (vs[j].1 == vs[i].1 && vs[j].2 <= vs[i].2)
                    } by {
                        assert(ranks_at_least(vs[i], vs[j]));
                    }
                },
                None => {
                    match best_variant(vs, None) {
                        Some(i) => {
                            assert forall|j: int|
                                0 <= j < vs.len() && (codec_matches(vs[i], f) ==> codec_matches(#[trigger] vs[j], f)) implies {
                                ||| vs[j].1 < vs[i].1
                                ||| (vs[j].1 == vs[i].1 && vs[j].2 <= vs[i].2)
                            } by {
                                assert(codec_matches(vs[j], None));
                                assert(ranks_at_least(vs[i], vs[j]));
                            }
                        },
                        None => {
                            if vs.len() > 0 {
                                assert(codec_matches(vs[0], None));
                            }
                        },
                    }
                },
            }
        },
        Err(_) => {},
    }
}

/// Whether a trimmed playlist line is an `#EXT-X-KEY` tag.
pub open spec fn is_key_line(l: Seq<char>) -> bool {
    starts_with(l, "#EXT-X-KEY:"@)
}

/// The `URI` attribute of an `#EXT-X-KEY` line.
pub open spec fn key_line_uri(l: Seq<char>) -> Option<Seq<char>> {
    lookup(attr_list(after_tag(l, "#EXT-X-KEY:"@)), "URI"@)
}

/// Whether a trimmed playlist line names a media segment (it is not empty
/// and not a tag or comment).
pub open spec fn is_uri_line(l: Seq<char>) -> bool {
    l.len() > 0 && l[0] != '#'
}

/// The key in effect before line `p`: the `URI` of the last `#EXT-X-KEY`
/// line among the first `p` lines, or `start` when there is none.
pub open spec fn key_before(lines: Seq<Seq<char>>, p: int, start: Option<Seq<char>>) -> Option<Seq<char>>
    decreases p,
{
    if p <= 0 {
        start
    } else if is_key_line(lines[p - 1]) {
        key_line_uri(lines[p - 1])
    } else {
        key_before(lines, p - 1, start)
    }
}

/// How many segment lines are among the first `p` lines.
pub open spec fn uri_lines_before(lines: Seq<Seq<char>>, p: int) -> nat
    decreases p,
{
    if p <= 0 {
        0
    } else {
        uri_lines_before(lines, p - 1) + if is_uri_line(lines[p - 1]) {
            1nat
        } else {
            0nat
        }
    }
}

/// Segment `k` of `lines` is the one at a segment line `p`, the `k`-th such
/// line, and carries the key in effect before it.
pub open spec fn keyed_at(lines: Seq<Seq<char>>, start: Option<Seq<char>>, k: int, key: Seq<char>, p: int) -> bool {
    &&& 0 <= p < lines.len()
    &&& is_uri_line(lines[p])
    &&& uri_lines_before(lines, p) == k
    &&& key_before(lines, p, start) == Some(key)
}

proof fn lemma_key_before_shift(lines: Seq<Seq<char>>, p: int, start: Option<Seq<char>>)
    requires
        lines.len() > 0,
        0 <= p < lines.len(),
    ensures
        key_before(lines, p + 1, start) == key_before(
            lines.drop_first(),
            p,
            if is_key_line(lines[0]) {
                key_line_uri(lines[0])
            } else {
                start
            },
        ),
        uri_lines_before(lines, p + 1) == uri_lines_before(lines.drop_first(), p) + if is_uri_line(lines[0]) {
            1nat
        } else {
            0nat
        },
    decreases p,
{
    let rest = lines.drop_first();
    let cur = if is_key_line(lines[0]) {
        key_line_uri(lines[0])
    } else {
        start
    };
    if p > 0 {
        lemma_key_before_shift(lines, p - 1, start);
        assert(rest[p - 1] == lines[p]);
        assert(key_before(lines, p + 1, start) == if is_key_line(lines[p]) {
            key_line_uri(lines[p])
        } else {
            key_before(lines, p, start)
        });
        assert(key_before(rest, p, cur) == if is_key_line(rest[p - 1]) {
            key_line_uri(rest[p - 1])
        } else {
            key_before(rest, p - 1, cur)
        });
        assert(uri_lines_before(lines, p + 1) == uri_lines_before(lines, p) + if is_uri_line(lines[p]) {
            1nat
        } else {
            0nat
        });
        assert(uri_lines_before(rest, p) == uri_lines_before(rest, p - 1) + if is_uri_line(rest[p - 1]) {
            1nat
        } else {
            0nat
        });
    } else {
        assert(key_before(lines, 1, start) == if is_key_line(lines[0]) {
            key_line_uri(lines[0])
        } else {
            key_before(lines, 0, start)
        });
        assert(key_before(rest, 0, cur) == cur);
        assert(uri_lines_before(lines, 1) == uri_lines_before(lines, 0) + if is_uri_line(lines[0]) {
            1nat
        } else {
            0nat
        });
        assert(uri_lines_before(rest, 0) == 0);
    }
}

/// Every segment of `segs` carries the key in effect before its own line of
/// `lines`, and it is the segment of the matching segment line.
pub open spec fn keys_follow(lines: Seq<Seq<char>>, start: Option<Seq<char>>, segs: Seq<SegmentView>) -> bool {
    forall|k: int| 0 <= k < segs.len() ==> keyed_somewhere(lines, start, k, #[trigger] segs[k].5)
}

/// Some segment line `p` of `lines` is the `k`-th and has `key` in effect.
pub open spec fn keyed_somewhere(lines: Seq<Seq<char>>, start: Option<Seq<char>>, k: int, key: Seq<char>) -> bool {
    exists|p: int| #[trigger] keyed_at(lines, start, k, key, p)
}

/// One line of the media fold: the state and number it continues with.
proof fn lemma_media_step(base: Seq<char>, lines: Seq<Seq<char>>, st: MediaState, n: nat) -> (next: (MediaState, nat))
    requires
        lines.len() > 0,
        media_fold(base, lines, st, n) is Ok,
    ensures
        media_fold(base, lines.drop_first(), next.0, next.1) is Ok,
        next.0.0 == if is_key_line(lines[0]) {
            key_line_uri(lines[0])
        } else {
            st.0
        },
        is_uri_line(lines[0]) ==> ({
            let segs = media_fold(base, lines, st, n)->Ok_0.1;
            let tail = media_fold(base, lines.drop_first(), next.0, next.1)->Ok_0.1;
            &&& segs.len() == tail.len() + 1
            &&& st.0 == Some(segs[0].5)
            &&& forall|k: int| 0 < k < segs.len() ==> segs[k] == tail[k - 1]
        }),
        !is_uri_line(lines[0]) ==> media_fold(base, lines, st, n)->Ok_0.1 == media_fold(
            base,
            lines.drop_first(),
            next.0,
            next.1,
        )->Ok_0.1,
{
    reveal_strlit("#EXT-X-KEY:");
    reveal_strlit("#EXT-X-MAP:");
    reveal_strlit("#EXTINF:");
    reveal_strlit("#EXT-X-BYTERANGE:");
    let l = lines[0];
    if l.len() > 0 {
        if starts_with(l, "#EXT-X-KEY:"@) {
            assert(l.subrange(0, 11)[0] == l[0]);
        }
        if starts_with(l, "#EXT-X-MAP:"@) {
            assert(l.subrange(0, 11)[0] == l[0]);
        }
        if starts_with(l, "#EXTINF:"@) {
            assert(l.subrange(0, 8)[0] == l[0]);
        }
        if starts_with(l, "#EXT-X-BYTERANGE:"@) {
            assert(l.subrange(0, 17)[0] == l[0]);
        }
    }
    if l.len() == 0 {
        (st, n)
    } else if starts_with(l, "#EXT-X-KEY:"@) {
        ((key_line_uri(l), st.1, st.2, st.3, st.4, st.5), n)
    } else if starts_with(l, "#EXT-X-MAP:"@) {
        let attrs = attr_list(after_tag(l, "#EXT-X-MAP:"@));
        let br = lookup(attrs, "BYTERANGE"@).unwrap();
        let (len, off) = byterange(br, None)->Ok_0;
        let u = lookup(attrs, "URI"@).unwrap();
        let uri = resolved(base, u).unwrap();
        ((st.0, st.1, st.2, st.3, Some(wrapped_sum(off as usize, len as usize)), Some((uri, len as usize, off as usize))), n)
    } else if starts_with(l, "#EXTINF:"@) {
        ((st.0, Some(first_field(after_tag(l, "#EXTINF:"@))), st.2, st.3, st.4, st.5), n)
    } else if starts_with(l, "#EXT-X-BYTERANGE:"@) {
        let (len, off) = byterange(after_tag(l, "#EXT-X-BYTERANGE:"@), st.4)->Ok_0;
        ((st.0, st.1, Some(len as usize), Some(off as usize), Some(wrapped_sum(off as usize, len as usize)), st.5), n)
    } else if l[0] == '#' {
        (st, n)
    } else {
        ((st.0, None, None, None, st.4, st.5), n + 1)
    }
}

/// Law: every segment of a media playlist carries the key of the last
/// `#EXT-X-KEY` line before its own line (each key line replaces the key
/// in effect), and segments come in the order of their lines.
pub proof fn law_segment_keys_follow_key_lines(base: Seq<char>, lines: Seq<Seq<char>>, st: MediaState, n: nat)
    requires
        media_fold(base, lines, st, n) is Ok,
    ensures
        keys_follow(lines, st.0, media_fold(base, lines, st, n)->Ok_0.1),
    decreases lines.len(),
{
    if lines.len() > 0 {
        let l = lines[0];
        let rest = lines.drop_first();
        let segs = media_fold(base, lines, st, n)->Ok_0.1;
        let (st2, n2) = lemma_media_step(base, lines, st, n);
        law_segment_keys_follow_key_lines(base, rest, st2, n2);
        let tail = media_fold(base, rest, st2, n2)->Ok_0.1;
        assert forall|k: int| 0 <= k < segs.len() implies keyed_somewhere(lines, st.0, k, #[trigger] segs[k].5) by {
            if is_uri_line(l) && k == 0 {
                assert(keyed_at(lines, st.0, 0, segs[0].5, 0));
            } else {
                let k2 = if is_uri_line(l) {
                    k - 1
                } else {
                    k
                };
                assert(segs[k] == tail[k2]);
                assert(keyed_somewhere(rest, st2.0, k2, tail[k2].5));
                let p2 = choose|p: int| #[trigger] keyed_at(rest, st2.0, k2, tail[k2].5, p);
                lemma_key_before_shift(lines, p2, st.0);
                assert(rest[p2] == lines[p2 + 1]);
                assert(keyed_at(lines, st.0, k, segs[k].5, p2 + 1));
            }
        }
        assert(keys_follow(lines, st.0, segs));
    } else {
        assert(media_fold(base, lines, st, n)->Ok_0.1.len() == 0);
    }
}

/// Law: in a parsed media playlist, segment `k` is the one at the `k`-th
/// segment line, and its key is the `URI` of the last `#EXT-X-KEY` line
/// before that line.
pub proof fn law_media_playlist_keys(base: Seq<char>, text: Seq<char>)
    requires
        media_playlist(base, text) is Ok,
    ensures
        keys_follow(text_lines(text), None, media_playlist(base, text)->Ok_0.1),
{
    law_segment_keys_follow_key_lines(base, text_lines(text), media_start(), 0);
}

} // verus!
