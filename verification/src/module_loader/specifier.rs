//! Module specifiers: a URL and the kind of module it names.
use vstd::prelude::*;

use url::Url;

use crate::path::spec::first_index;
use crate::text::str_equal;

verus! {

#[verifier::external_type_specification]
#[verifier::external_body]
pub struct ExUrl(url::Url);

#[verifier::external_type_specification]
#[verifier::external_body]
pub struct ExUrlParseError(url::ParseError);

/// The scheme and the text (serialization) of the URL that `url::Url::parse` makes
/// of the text, or `None` when it refuses the text.
pub uninterp spec fn url_parsed(s: Seq<char>) -> Option<(Seq<char>, Seq<char>)>;

/// The scheme of the URL parsed from `s`, if it parses.
pub open spec fn url_parse_scheme(s: Seq<char>) -> Option<Seq<char>> {
    match url_parsed(s) {
        Some((scheme, _)) => Some(scheme),
        None => None,
    }
}

/// The text of the URL parsed from `s`, if it parses.
pub open spec fn url_parse_text(s: Seq<char>) -> Option<Seq<char>> {
    match url_parsed(s) {
        Some((_, text)) => Some(text),
        None => None,
    }
}

/// No character is a C0 control or a space (the parser trims those at both ends and
/// skips tabs and newlines).
pub open spec fn plain_text(s: Seq<char>) -> bool {
    forall|i: int| 0 <= i < s.len() ==> (#[trigger] s[i] as u32) > 32
}

pub open spec fn ascii_lower_char(c: char) -> char {
    if 'A' <= c && c <= 'Z' {
        ((c as u32) + 32) as char
    } else {
        c
    }
}

/// The text before the first `:`, with ASCII capitals made small.
pub open spec fn scheme_text(s: Seq<char>) -> Seq<char> {
    let head = s.take(first_index(s, ':') as int);
    Seq::new(head.len(), |i: int| ascii_lower_char(head[i]))
}

/// `url::Url::parse`, with the scheme and the text (`as_str`) of the parsed URL read
/// off it. Claimed: it succeeds, with that scheme and text, exactly as `url_parsed`
/// says; and when the text holds no control character or space, the scheme is the
/// text before the first `:` in small letters (without a base URL the parser accepts a
/// text only through its scheme state, which reads up to the first `:`, lowering
/// ASCII capitals).
#[verifier::external_body]
fn parse_url(s: &str) -> (r: Result<(Url, String, String), url::ParseError>)
    ensures
        match r {
            Ok((_, scheme, text)) => url_parsed(s@) == Some((scheme@, text@)),
            Err(_) => url_parsed(s@) is None,
        },
        plain_text(s@) ==> (r matches Ok((_, scheme, _)) ==> scheme@ == scheme_text(s@)),
{
    match Url::parse(s) {
        Ok(u) => {
            let scheme = u.scheme().to_string();
            let text = u.as_str().to_string();
            Ok((u, scheme, text))
        },
        Err(e) => Err(e),
    }
}

/// `url::Url::as_str`. The text depends on the URL value, which Verus does not see
/// into, so nothing is stated of it.
#[verifier::external_body]
fn url_text_of(u: &Url) -> (r: String) {
    u.as_str().to_string()
}

/// The kind of a module.
#[derive(Clone, Copy, Debug, PartialEq, Eq, Hash, Structural)]
pub enum ModuleType {
    File,
    Builtin,
    Memory,
    ImportMap,
}

/// The kind of module a URL scheme names, if any.
pub open spec fn scheme_type(scheme: Seq<char>) -> Option<ModuleType> {
    if scheme == "zako"@ {
        Some(ModuleType::Builtin)
    } else if scheme == "zako-memory"@ {
        Some(ModuleType::Memory)
    } else if scheme == "zako-import-map"@ {
        Some(ModuleType::ImportMap)
    } else if scheme == "file"@ {
        Some(ModuleType::File)
    } else {
        None
    }
}

/// The URL text and kind for a specifier that is not a URL of a known scheme:
/// `zako:x`, `__zako_memory:x` and `@x` name built-in, memory and import-map modules;
/// anything else is a file.
pub open spec fn fallback_url(s: Seq<char>) -> (Seq<char>, ModuleType) {
    if s.len() >= 5 && s.take(5) == "zako:"@ {
        ("zako:"@ + s.skip(5), ModuleType::Builtin)
    } else if s.len() >= 14 && s.take(14) == "__zako_memory:"@ {
        ("zako-memory:"@ + s.skip(14), ModuleType::Memory)
    } else if s.len() >= 1 && s[0] == '@' {
        ("zako-import-map:"@ + s.skip(1), ModuleType::ImportMap)
    } else {
        ("file://"@ + s, ModuleType::File)
    }
}

/// A specifier that is not a URL of a known scheme names its module by its prefix:
/// `zako:`, `__zako_memory:` and `@` are replaced by the scheme of built-in, memory
/// and import-map modules, keeping the rest of the specifier; anything else is a file
/// path after `file://`.
pub proof fn law_fallback_prefixes(x: Seq<char>)
    ensures
        fallback_url("zako:"@ + x) == ("zako:"@ + x, ModuleType::Builtin),
        fallback_url("__zako_memory:"@ + x) == ("zako-memory:"@ + x, ModuleType::Memory),
        fallback_url(seq!['@'] + x) == ("zako-import-map:"@ + x, ModuleType::ImportMap),
        !"zako:"@.is_prefix_of(x) && !"__zako_memory:"@.is_prefix_of(x) && !seq!['@'].is_prefix_of(x)
            ==> fallback_url(x) == ("file://"@ + x, ModuleType::File),
{
    reveal_strlit("zako:");
    reveal_strlit("__zako_memory:");
    reveal_strlit("zako-memory:");
    reveal_strlit("zako-import-map:");
    reveal_strlit("file://");
    let a = "zako:"@ + x;
    assert(a.take(5) =~= "zako:"@);
    assert(a.skip(5) =~= x);
    let b = "__zako_memory:"@ + x;
    assert(b.take(5) != "zako:"@) by {
        assert(b.take(5)[0] == '_');
    }
    assert(b.take(14) =~= "__zako_memory:"@);
    assert(b.skip(14) =~= x);
    let c = seq!['@'] + x;
    assert(c[0] == '@');
    if c.len() >= 5 {
        assert(c.take(5) != "zako:"@) by {
            assert(c.take(5)[0] == '@');
        }
    }
    if c.len() >= 14 {
        assert(c.take(14) != "__zako_memory:"@) by {
            assert(c.take(14)[0] == '@');
        }
    }
    assert(c.skip(1) =~= x);
    if x.len() >= 5 && x.take(5) == "zako:"@ {
        assert("zako:"@.is_prefix_of(x));
    }
    if x.len() >= 14 && x.take(14) == "__zako_memory:"@ {
        assert("__zako_memory:"@.is_prefix_of(x));
    }
    if x.len() >= 1 && x[0] == '@' {
        assert(x.take(1) =~= seq!['@']);
        assert(seq!['@'].is_prefix_of(x));
    }
}

/// The scheme read off `p + rest`, when `p` holds its first `:` at `k` and no capital
/// before it, is the text of `p` before `k`.
proof fn lemma_scheme_of_prefix(p: Seq<char>, k: int, rest: Seq<char>)
    requires
        0 <= k < p.len(),
        p[k] == ':',
        forall|j: int| 0 <= j < k ==> p[j] != ':' && !('A' <= #[trigger] p[j] && p[j] <= 'Z'),
    ensures
        scheme_text(p + rest) == p.take(k),
{
    let u = p + rest;
    assert forall|j: int| 0 <= j < k implies u[j] != ':' by {
        assert(u[j] == p[j]);
    }
    crate::text::lemma_first_index_at(u, ':', k);
    assert(scheme_text(u) =~= p.take(k));
}

/// The URL made of a specifier that is not a URL of a known scheme has the scheme of
/// the kind it is given: reading the kind back from the URL's scheme gives that kind.
pub proof fn law_fallback_scheme_agrees(s: Seq<char>)
    ensures
        scheme_type(scheme_text(fallback_url(s).0)) == Some(fallback_url(s).1),
{
    reveal_strlit("zako:");
    reveal_strlit("__zako_memory:");
    reveal_strlit("zako-memory:");
    reveal_strlit("zako-import-map:");
    reveal_strlit("file://");
    reveal_strlit("zako");
    reveal_strlit("zako-memory");
    reveal_strlit("zako-import-map");
    reveal_strlit("file");
    if s.len() >= 5 && s.take(5) == "zako:"@ {
        lemma_scheme_of_prefix("zako:"@, 4, s.skip(5));
        assert("zako:"@.take(4) =~= "zako"@);
        assert(scheme_type("zako"@) == Some(ModuleType::Builtin));
    } else if s.len() >= 14 && s.take(14) == "__zako_memory:"@ {
        lemma_scheme_of_prefix("zako-memory:"@, 11, s.skip(14));
        assert("zako-memory:"@.take(11) =~= "zako-memory"@);
        assert("zako-memory"@ != "zako"@) by {
            assert("zako-memory"@.len() != "zako"@.len());
        }
        assert(scheme_type("zako-memory"@) == Some(ModuleType::Memory));
    } else if s.len() >= 1 && s[0] == '@' {
        lemma_scheme_of_prefix("zako-import-map:"@, 15, s.skip(1));
        assert("zako-import-map:"@.take(15) =~= "zako-import-map"@);
        assert("zako-import-map"@.len() != "zako"@.len());
        assert("zako-import-map"@.len() != "zako-memory"@.len());
        assert(scheme_type("zako-import-map"@) == Some(ModuleType::ImportMap));
    } else {
        lemma_scheme_of_prefix("file://"@, 4, s);
        assert("file://"@.take(4) =~= "file"@);
        assert("file"@ != "zako"@) by {
            assert("file"@[0] != "zako"@[0]);
        }
        assert("file"@.len() != "zako-memory"@.len());
        assert("file"@.len() != "zako-import-map"@.len());
        assert(scheme_type("file"@) == Some(ModuleType::File));
    }
}

/// Why a specifier was refused.
#[derive(Debug)]
pub enum SpecifierError {
    /// The URL text made of the specifier does not parse.
    InvalidUrl { raw_url: String, module_type: ModuleType, error: url::ParseError },
}

/// A module: its URL and its kind.
#[derive(Debug, PartialEq, Eq, Hash)]
pub struct ModuleSpecifier {
    pub url: Url,
    pub module_type: ModuleType,
    /// The text of `url`, as the URL parser wrote it.
    pub text: String,
}

fn scheme_type_exec(scheme: &str) -> (r: Option<ModuleType>)
    ensures
        r == scheme_type(scheme@),
{
    proof {
        reveal_strlit("zako");
        reveal_strlit("zako-memory");
        reveal_strlit("zako-import-map");
        reveal_strlit("file");
    }
    if str_equal(scheme, "zako") {
        Some(ModuleType::Builtin)
    } else if str_equal(scheme, "zako-memory") {
        Some(ModuleType::Memory)
    } else if str_equal(scheme, "zako-import-map") {
        Some(ModuleType::ImportMap)
    } else if str_equal(scheme, "file") {
        Some(ModuleType::File)
    } else {
        None
    }
}

/// Whether `s` begins with `prefix`.
fn has_prefix(s: &str, prefix: &str) -> (r: bool)
    ensures
        r == (s@.len() >= prefix@.len() && s@.take(prefix@.len() as int) == prefix@),
{
    let n = s.unicode_len();
    let m = prefix.unicode_len();
    if n < m {
        return false;
    }
    let head = s.substring_char(0, m);
    assert(head@ =~= s@.take(m as int));
    str_equal(head, prefix)
}

/// The URL text and kind for a specifier that is not a URL of a known scheme.
pub fn fallback_url_exec(s: &str) -> (r: (String, ModuleType))
    ensures
        r.0@ == fallback_url(s@).0,
        r.1 == fallback_url(s@).1,
{
    proof {
        reveal_strlit("zako:");
        reveal_strlit("__zako_memory:");
        reveal_strlit("zako-memory:");
        reveal_strlit("zako-import-map:");
        reveal_strlit("file://");
    }
    let n = s.unicode_len();
    if has_prefix(s, "zako:") {
        let mut raw = String::from_str("zako:");
        raw.append(s.substring_char(5, n));
        (raw, ModuleType::Builtin)
    } else if has_prefix(s, "__zako_memory:") {
        let mut raw = String::from_str("zako-memory:");
        raw.append(s.substring_char(14, n));
        (raw, ModuleType::Memory)
    } else if n >= 1 && s.get_char(0) == '@' {
        let mut raw = String::from_str("zako-import-map:");
        raw.append(s.substring_char(1, n));
        (raw, ModuleType::ImportMap)
    } else {
        let mut raw = String::from_str("file://");
        raw.append(s);
        (raw, ModuleType::File)
    }
}

impl ModuleSpecifier {
    pub fn new(url: Url, module_type: ModuleType) -> (r: Self)
        ensures
            r.url == url,
            r.module_type == module_type,
    {
        let text = url_text_of(&url);
        ModuleSpecifier { url, module_type, text }
    }

    /// The file module at `file`: the URL `file://` and the path.
    pub fn new_file_module(file: &str) -> (r: Result<Self, SpecifierError>)
        ensures
            (r is Ok) == (url_parsed("file://"@ + file@) is Some),
            r matches Ok(m) ==> m.module_type == ModuleType::File && Some(m.text@)
                == url_parse_text("file://"@ + file@),
            r matches Err(SpecifierError::InvalidUrl { raw_url, module_type, .. }) ==> raw_url@
                == "file://"@ + file@ && module_type == ModuleType::File,
    {
        proof {
            reveal_strlit("file://");
        }
        let mut raw = String::from_str("file://");
        raw.append(file);
        match parse_url(raw.as_str()) {
            Ok((url, _, text)) => Ok(ModuleSpecifier { url, module_type: ModuleType::File, text }),
            Err(error) => Err(
                SpecifierError::InvalidUrl { raw_url: raw, module_type: ModuleType::File, error },
            ),
        }
    }

    /// The module a specifier names: a URL of a known scheme as it is; otherwise the
    /// URL made of its prefix (see `fallback_url`).
    pub fn from(module_specifier: &str) -> (r: Result<Self, SpecifierError>)
        ensures
            plain_text(module_specifier@) ==> (url_parse_scheme(module_specifier@) matches Some(sc)
                ==> sc == scheme_text(module_specifier@)),
            ({
                let first = url_parse_scheme(module_specifier@);
                let known = first is Some && scheme_type(first->Some_0) is Some;
                let (raw, ty) = fallback_url(module_specifier@);
                &&& known ==> (r matches Ok(m) && Some(m.module_type) == scheme_type(
                    first->Some_0,
                ) && Some(m.text@) == url_parse_text(module_specifier@))
                &&& !known ==> ((r is Ok) == (url_parsed(raw) is Some))
                &&& !known ==> (r matches Ok(m) ==> m.module_type == ty && Some(m.text@)
                    == url_parse_text(raw))
                &&& !known ==> (r matches Err(SpecifierError::InvalidUrl { raw_url, module_type, .. })
                    ==> raw_url@ == raw && module_type == ty)
            }),
    {
        match parse_url(module_specifier) {
            Ok((url, scheme, text)) => {
                match scheme_type_exec(scheme.as_str()) {
                    Some(t) => {
                        return Ok(ModuleSpecifier { url, module_type: t, text });
                    },
                    None => {},
                }
            },
            Err(_) => {},
        }
        let (raw, module_type) = fallback_url_exec(module_specifier);
        match parse_url(raw.as_str()) {
            Ok((url, _, text)) => Ok(ModuleSpecifier { url, module_type, text }),
            Err(error) => Err(SpecifierError::InvalidUrl { raw_url: raw, module_type, error }),
        }
    }
}

} // verus!
