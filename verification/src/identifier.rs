//! Parsing of the installation record's composite identifiers.
//!
//! An identifier has the shape `"<name> <version> (<origin>)"`. It is split
//! on the first two single spaces, so an origin containing spaces stays
//! intact; exactly one leading `(` and one trailing `)` are stripped from the
//! third token, and the origin's prefix decides the source kind: `git+` is a
//! version-control source, `path+file://` a local directory (the rest of the
//! origin is the path), anything else a registry.

use vstd::prelude::*;

use crate::version::{semver_valid, Version};

verus! {

/// Where a package's content originated.
#[derive(Debug, Clone, Copy, PartialEq, Eq, Structural)]
pub enum SourceKind {
    Registry,
    Local,
    VersionControl,
}

/// Why an identifier was rejected.
#[derive(Debug, Clone, Copy, PartialEq, Eq, Structural)]
pub enum ParseError {
    /// The text does not split into three space-delimited tokens.
    MalformedIdentifier,
    /// The second token is not a valid semantic version.
    InvalidVersion,
}

/// The ghost model of a [`ParsedIdentifier`].
pub ghost struct ParsedIdentifierModel {
    pub name: Seq<char>,
    pub version: Seq<char>,
    pub kind: SourceKind,
    pub source_path: Option<Seq<char>>,
}

/// The structured form of one composite identifier.
#[derive(Debug)]
pub struct ParsedIdentifier {
    pub name: String,
    pub version: Version,
    pub kind: SourceKind,
    pub source_path: Option<String>,
}

impl View for ParsedIdentifier {
    type V = ParsedIdentifierModel;

    open spec fn view(&self) -> ParsedIdentifierModel {
        ParsedIdentifierModel {
            name: self.name@,
            version: self.version@,
            kind: self.kind,
            source_path: self.source_path.deep_view(),
        }
    }
}

/// The position of the first space at or after `from`, if any.
pub open spec fn find_space(s: Seq<char>, from: int) -> Option<int>
    decreases s.len() - from when 0 <= from <= s.len()
{
    if from >= s.len() {
        None
    } else if s[from] == ' ' {
        Some(from)
    } else {
        find_space(s, from + 1)
    }
}

/// Whether `pre` is a prefix of `s`.
pub open spec fn has_prefix(s: Seq<char>, pre: Seq<char>) -> bool {
    pre.len() <= s.len() && s.subrange(0, pre.len() as int) == pre
}

/// The origin prefix of version-control sources.
pub open spec fn git_prefix() -> Seq<char> {
    "git+"@
}

/// The origin prefix of local-directory sources.
pub open spec fn path_prefix() -> Seq<char> {
    "path+file://"@
}

/// The third token with exactly one leading `(` and one trailing `)`
/// removed, each only where present.
pub open spec fn strip_parens(t: Seq<char>) -> Seq<char> {
    let a = if t.len() > 0 && t[0] == '(' {
        t.subrange(1, t.len() as int)
    } else {
        t
    };
    if a.len() > 0 && a[a.len() - 1] == ')' {
        a.subrange(0, a.len() - 1)
    } else {
        a
    }
}

/// The source kind of an origin, decided by its prefix; the checks are
/// mutually exclusive and ordered.
pub open spec fn classify(origin: Seq<char>) -> SourceKind {
    if has_prefix(origin, git_prefix()) {
        SourceKind::VersionControl
    } else if has_prefix(origin, path_prefix()) {
        SourceKind::Local
    } else {
        SourceKind::Registry
    }
}

/// The local source path carried by an origin: everything after the
/// `path+file://` prefix, for local origins only.
pub open spec fn origin_path(origin: Seq<char>) -> Option<Seq<char>> {
    if has_prefix(origin, path_prefix()) {
        Some(origin.subrange(path_prefix().len() as int, origin.len() as int))
    } else {
        None
    }
}

/// What `parse` returns on a given text: split on the first two spaces,
/// reject a text with fewer than three tokens or an invalid version token,
/// then classify the parenthesised origin.
pub open spec fn spec_parse(s: Seq<char>) -> Result<ParsedIdentifierModel, ParseError> {
    match find_space(s, 0) {
        None => Err(ParseError::MalformedIdentifier),
        Some(i) => match find_space(s, i + 1) {
            None => Err(ParseError::MalformedIdentifier),
            Some(j) => {
                let ver = s.subrange(i + 1, j);
                if !semver_valid(ver) {
                    Err(ParseError::InvalidVersion)
                } else {
                    let origin = strip_parens(s.subrange(j + 1, s.len() as int));
                    Ok(ParsedIdentifierModel {
                        name: s.subrange(0, i),
                        version: ver,
                        kind: classify(origin),
                        source_path: origin_path(origin),
                    })
                }
            },
        },
    }
}

/// Unfolding [`find_space`] all the way: a found position is the first space
/// at or after `from`; `None` means there is none.
pub proof fn lemma_find_space_props(s: Seq<char>, from: int)
    requires
        0 <= from <= s.len(),
    ensures
        match find_space(s, from) {
            Some(k) => from <= k < s.len() && s[k] == ' ' && (forall|t: int|
                from <= t < k ==> s[t] != ' '),
            None => forall|t: int| from <= t < s.len() ==> s[t] != ' ',
        },
    decreases s.len() - from,
{
    if from < s.len() && s[from] != ' ' {
        lemma_find_space_props(s, from + 1);
    }
}

/// The first space at or after `from` is at `k` when `k` holds a space and
/// nothing before it (from `from` on) does.
pub proof fn lemma_find_space_at(s: Seq<char>, from: int, k: int)
    requires
        0 <= from <= k < s.len(),
        s[k] == ' ',
        forall|t: int| from <= t < k ==> s[t] != ' ',
    ensures
        find_space(s, from) == Some(k),
    decreases k - from,
{
    if from < k {
        lemma_find_space_at(s, from + 1, k);
    }
}

/// The exec search matching [`find_space`].
fn find_space_in(s: &str, from: usize) -> (r: Option<usize>)
    requires
        from <= s@.len(),
    ensures
        r is Some <==> find_space(s@, from as int) is Some,
        r matches Some(k) ==> find_space(s@, from as int) == Some(k as int),
{
    let n = s.unicode_len();
    let mut i: usize = from;
    while i < n
        invariant
            from <= i <= n,
            n == s@.len(),
            find_space(s@, from as int) == find_space(s@, i as int),
        decreases n - i,
    {
        if s.get_char(i) == ' ' {
            return Some(i);
        }
        i = i + 1;
    }
    None
}

/// Whether `pre` is a prefix of `s`, matching [`has_prefix`].
fn starts_with_prefix(s: &str, pre: &str) -> (r: bool)
    ensures
        r == has_prefix(s@, pre@),
{
    let n = s.unicode_len();
    let pn = pre.unicode_len();
    if pn > n {
        return false;
    }
    let mut k: usize = 0;
    while k < pn
        invariant
            0 <= k <= pn <= n,
            n == s@.len(),
            pn == pre@.len(),
            forall|t: int| 0 <= t < k ==> s@[t] == pre@[t],
        decreases pn - k,
    {
        if s.get_char(k) != pre.get_char(k) {
            proof {
                assert(s@.subrange(0, pn as int)[k as int] != pre@[k as int]);
            }
            return false;
        }
        k = k + 1;
    }
    proof {
        assert(s@.subrange(0, pn as int) =~= pre@);
    }
    true
}

/// Parse one composite identifier.
///
/// The result is exactly [`spec_parse`] of the text: `MalformedIdentifier`
/// when the text has fewer than three space-delimited tokens,
/// `InvalidVersion` when the second token is not a semantic version, and
/// otherwise the name, the version, the source kind decided by the origin's
/// prefix, and the local source path if there is one.
pub fn parse(raw: &str) -> (r: Result<ParsedIdentifier, ParseError>)
    ensures
        r matches Ok(p) ==> spec_parse(raw@) == Ok::<ParsedIdentifierModel, ParseError>(p@),
        r matches Err(e) ==> spec_parse(raw@) == Err::<ParsedIdentifierModel, ParseError>(e),
{
    let n = raw.unicode_len();
    let i = match find_space_in(raw, 0) {
        None => {
            return Err(ParseError::MalformedIdentifier);
        },
        Some(i) => i,
    };
    proof {
        lemma_find_space_props(raw@, 0);
    }
    let j = match find_space_in(raw, i + 1) {
        None => {
            return Err(ParseError::MalformedIdentifier);
        },
        Some(j) => j,
    };
    proof {
        lemma_find_space_props(raw@, i + 1);
    }
    let name = raw.substring_char(0, i).to_owned();
    let ver_text = raw.substring_char(i + 1, j);
    let version = match Version::parse(ver_text) {
        None => {
            return Err(ParseError::InvalidVersion);
        },
        Some(v) => v,
    };
    let tok3 = raw.substring_char(j + 1, n);
    let m = tok3.unicode_len();
    let mut lo: usize = 0;
    let mut hi: usize = m;
    if hi > lo && tok3.get_char(lo) == '(' {
        lo = lo + 1;
    }
    if hi > lo && tok3.get_char(hi - 1) == ')' {
        hi = hi - 1;
    }
    let origin = tok3.substring_char(lo, hi);
    proof {
        assert(origin@ =~= strip_parens(tok3@));
    }
    let kind: SourceKind;
    let source_path: Option<String>;
    if starts_with_prefix(origin, "git+") {
        kind = SourceKind::VersionControl;
        source_path = None;
        proof {
            reveal_strlit("git+");
            reveal_strlit("path+file://");
            assert(!has_prefix(origin@, path_prefix())) by {
                if has_prefix(origin@, path_prefix()) {
                    assert(origin@.subrange(0, git_prefix().len() as int)[0] == 'g');
                    assert(origin@.subrange(0, path_prefix().len() as int)[0] == 'p');
                }
            }
        }
    } else if starts_with_prefix(origin, "path+file://") {
        kind = SourceKind::Local;
        let plen = "path+file://".unicode_len();
        source_path = Some(origin.substring_char(plen, origin.unicode_len()).to_owned());
    } else {
        kind = SourceKind::Registry;
        source_path = None;
    }
    Ok(ParsedIdentifier { name, version, kind, source_path })
}

/// Whether the text splits into three tokens, that is, holds at least two
/// spaces.
pub open spec fn has_three_tokens(s: Seq<char>) -> bool {
    exists|i: int, j: int| 0 <= i < j < s.len() && s[i] == ' ' && s[j] == ' '
}

/// `parse` rejects a text as malformed exactly when it has fewer than three
/// space-delimited tokens.
pub proof fn lemma_parse_malformed(s: Seq<char>)
    ensures
        spec_parse(s) == Err::<ParsedIdentifierModel, ParseError>(ParseError::MalformedIdentifier)
            <==> !has_three_tokens(s),
{
    lemma_find_space_props(s, 0);
    match find_space(s, 0) {
        None => {
            assert(!has_three_tokens(s)) by {
                if has_three_tokens(s) {
                    let (a, b) = choose|a: int, b: int|
                        0 <= a < b < s.len() && s[a] == ' ' && s[b] == ' ';
                    assert(s[a] != ' ');
                }
            }
        },
        Some(i) => {
            lemma_find_space_props(s, i + 1);
            match find_space(s, i + 1) {
                None => {
                    assert(!has_three_tokens(s)) by {
                        if has_three_tokens(s) {
                            let (a, b) = choose|a: int, b: int|
                                0 <= a < b < s.len() && s[a] == ' ' && s[b] == ' ';
                            if a != i {
                                assert(s[a] != ' ');
                            } else {
                                assert(s[b] != ' ');
                            }
                        }
                    }
                },
                Some(j) => {
                    assert(has_three_tokens(s)) by {
                        assert(0 <= i < j < s.len() && s[i] == ' ' && s[j] == ' ');
                    }
                },
            }
        },
    }
}

/// The second token of a text, when the text has three.
pub open spec fn second_token(s: Seq<char>) -> Option<Seq<char>> {
    match find_space(s, 0) {
        None => None,
        Some(i) => match find_space(s, i + 1) {
            None => None,
            Some(j) => Some(s.subrange(i + 1, j)),
        },
    }
}

/// `parse` rejects a text for its version exactly when the text has three
/// tokens and the second is not a valid semantic version.
pub proof fn lemma_parse_invalid_version(s: Seq<char>)
    ensures
        spec_parse(s) == Err::<ParsedIdentifierModel, ParseError>(ParseError::InvalidVersion)
            <==> (second_token(s) is Some && !semver_valid(second_token(s).unwrap())),
{
}

/// Splitting a well-formed identifier: with a space-free name, a space-free
/// version token and a parenthesised origin, `parse` finds exactly those
/// three parts.
proof fn lemma_parse_wellformed(name: Seq<char>, ver: Seq<char>, origin: Seq<char>)
    requires
        forall|t: int| 0 <= t < name.len() ==> name[t] != ' ',
        forall|t: int| 0 <= t < ver.len() ==> ver[t] != ' ',
    ensures
        ({
            let raw = name + seq![' '] + ver + seq![' '] + seq!['('] + origin + seq![')'];
            spec_parse(raw) == if semver_valid(ver) {
                Ok::<ParsedIdentifierModel, ParseError>(
                    ParsedIdentifierModel {
                        name: name,
                        version: ver,
                        kind: classify(origin),
                        source_path: origin_path(origin),
                    },
                )
            } else {
                Err::<ParsedIdentifierModel, ParseError>(ParseError::InvalidVersion)
            }
        }),
{
    let raw = name + seq![' '] + ver + seq![' '] + seq!['('] + origin + seq![')'];
    let i = name.len() as int;
    let j = i + 1 + ver.len() as int;
    assert(raw.len() == name.len() + ver.len() + origin.len() + 4);
    assert(raw[i] == ' ');
    assert forall|t: int| 0 <= t < i implies raw[t] != ' ' by {
        assert(raw[t] == name[t]);
    }
    lemma_find_space_at(raw, 0, i);
    assert(raw[j] == ' ');
    assert forall|t: int| i + 1 <= t < j implies raw[t] != ' ' by {
        assert(raw[t] == ver[t - (i + 1)]);
    }
    lemma_find_space_at(raw, i + 1, j);
    assert(raw.subrange(0, i) =~= name);
    assert(raw.subrange(i + 1, j) =~= ver);
    let tok3 = raw.subrange(j + 1, raw.len() as int);
    assert(tok3 =~= seq!['('] + origin + seq![')']);
    assert(strip_parens(tok3) == origin) by {
        assert(tok3[0] == '(');
        let a = tok3.subrange(1, tok3.len() as int);
        assert(a =~= origin + seq![')']);
        assert(a[a.len() - 1] == ')');
        assert(a.subrange(0, a.len() - 1) =~= origin);
    }
}

/// For every well-formed `"<name> <version> (registry+<url>)"` with a valid
/// version, `parse` returns the name, the version, the registry kind and no
/// source path.
pub proof fn lemma_parse_registry(name: Seq<char>, ver: Seq<char>, url: Seq<char>)
    requires
        forall|t: int| 0 <= t < name.len() ==> name[t] != ' ',
        forall|t: int| 0 <= t < ver.len() ==> ver[t] != ' ',
    ensures
        ({
            let raw = name + seq![' '] + ver + seq![' '] + seq!['('] + "registry+"@ + url
                + seq![')'];
            semver_valid(ver) ==> spec_parse(raw) == Ok::<ParsedIdentifierModel, ParseError>(
                ParsedIdentifierModel {
                    name: name,
                    version: ver,
                    kind: SourceKind::Registry,
                    source_path: None,
                },
            )
        }),
{
    let origin = "registry+"@ + url;
    lemma_parse_wellformed(name, ver, origin);
    assert(name + seq![' '] + ver + seq![' '] + seq!['('] + origin + seq![')'] =~= name
        + seq![' '] + ver + seq![' '] + seq!['('] + "registry+"@ + url + seq![')']);
    reveal_strlit("registry+");
    reveal_strlit("git+");
    reveal_strlit("path+file://");
    assert(origin[0] == 'r');
    assert(!has_prefix(origin, git_prefix())) by {
        if has_prefix(origin, git_prefix()) {
            assert(origin.subrange(0, git_prefix().len() as int)[0] == 'g');
        }
    }
    assert(!has_prefix(origin, path_prefix())) by {
        if has_prefix(origin, path_prefix()) {
            assert(origin.subrange(0, path_prefix().len() as int)[0] == 'p');
        }
    }
}

/// For every well-formed `"<name> <version> (path+file://<path>)"` with a
/// valid version, `parse` returns the name, the version, the local kind and
/// exactly the substring after the prefix as the source path.
pub proof fn lemma_parse_local(name: Seq<char>, ver: Seq<char>, path: Seq<char>)
    requires
        forall|t: int| 0 <= t < name.len() ==> name[t] != ' ',
        forall|t: int| 0 <= t < ver.len() ==> ver[t] != ' ',
    ensures
        ({
            let raw = name + seq![' '] + ver + seq![' '] + seq!['('] + "path+file://"@ + path
                + seq![')'];
            semver_valid(ver) ==> spec_parse(raw) == Ok::<ParsedIdentifierModel, ParseError>(
                ParsedIdentifierModel {
                    name: name,
                    version: ver,
                    kind: SourceKind::Local,
                    source_path: Some(path),
                },
            )
        }),
{
    let origin = "path+file://"@ + path;
    lemma_parse_wellformed(name, ver, origin);
    assert(name + seq![' '] + ver + seq![' '] + seq!['('] + origin + seq![')'] =~= name
        + seq![' '] + ver + seq![' '] + seq!['('] + "path+file://"@ + path + seq![')']);
    reveal_strlit("git+");
    reveal_strlit("path+file://");
    assert(origin[0] == 'p');
    assert(!has_prefix(origin, git_prefix())) by {
        if has_prefix(origin, git_prefix()) {
            assert(origin.subrange(0, git_prefix().len() as int)[0] == 'g');
        }
    }
    assert(has_prefix(origin, path_prefix())) by {
        assert(origin.subrange(0, path_prefix().len() as int) =~= path_prefix());
    }
    assert(origin.subrange(path_prefix().len() as int, origin.len() as int) =~= path);
}

/// For every well-formed `"<name> <version> (git+<url>)"` with a valid
/// version — the url may carry a `#fragment` — `parse` classifies the entry
/// as a version-control source with no source path.
pub proof fn lemma_parse_git(name: Seq<char>, ver: Seq<char>, url: Seq<char>)
    requires
        forall|t: int| 0 <= t < name.len() ==> name[t] != ' ',
        forall|t: int| 0 <= t < ver.len() ==> ver[t] != ' ',
    ensures
        ({
            let raw = name + seq![' '] + ver + seq![' '] + seq!['('] + "git+"@ + url + seq![')'];
            semver_valid(ver) ==> spec_parse(raw) == Ok::<ParsedIdentifierModel, ParseError>(
                ParsedIdentifierModel {
                    name: name,
                    version: ver,
                    kind: SourceKind::VersionControl,
                    source_path: None,
                },
            )
        }),
{
    let origin = "git+"@ + url;
    lemma_parse_wellformed(name, ver, origin);
    assert(name + seq![' '] + ver + seq![' '] + seq!['('] + origin + seq![')'] =~= name
        + seq![' '] + ver + seq![' '] + seq!['('] + "git+"@ + url + seq![')']);
    reveal_strlit("git+");
    reveal_strlit("path+file://");
    assert(origin[0] == 'g');
    assert(has_prefix(origin, git_prefix())) by {
        assert(origin.subrange(0, git_prefix().len() as int) =~= git_prefix());
    }
    assert(!has_prefix(origin, path_prefix())) by {
        if has_prefix(origin, path_prefix()) {
            assert(origin.subrange(0, path_prefix().len() as int)[0] == 'p');
        }
    }
}

} // verus!
