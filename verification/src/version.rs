//! Semantic versions as the catalog stores them: three numeric components
//! and the pre-release identifiers, with the SemVer precedence order proved
//! transitive and total.
//!
//! Parsing a version string is delegated to the `semver` crate behind one
//! trusted wrapper; everything downstream of the parsed components —
//! splitting the pre-release text into identifiers and the whole precedence
//! order — is verified here.

use vstd::prelude::*;
use crate::bytes::{
    bytes_eq, lemma_deep_view_elts, lemma_lex_lt_irrefl, lemma_lex_lt_skip, lemma_lex_lt_trans,
    lemma_lex_lt_trichotomy, lex_lt, split_at_byte, split_byte,
};

verus! {

/// A parsed semantic version. `pre` holds the dot-separated pre-release
/// identifiers as byte strings; a released version has none.
pub struct Version {
    pub major: u64,
    pub minor: u64,
    pub patch: u64,
    pub pre: Vec<Vec<u8>>,
}

/// Ghost view of a [`Version`].
#[verifier::ext_equal]
pub ghost struct VersionV {
    pub major: int,
    pub minor: int,
    pub patch: int,
    pub pre: Seq<Seq<u8>>,
}

impl View for Version {
    type V = VersionV;

    open spec fn view(&self) -> VersionV {
        VersionV {
            major: self.major as int,
            minor: self.minor as int,
            patch: self.patch as int,
            pre: self.pre.deep_view(),
        }
    }
}

pub open spec fn is_digit(b: u8) -> bool {
    0x30 <= b <= 0x39
}

/// A pre-release identifier made of digits only compares numerically.
pub open spec fn is_numeric_id(s: Seq<u8>) -> bool {
    s.len() > 0 && forall|i: int| 0 <= i < s.len() ==> is_digit(#[trigger] s[i])
}

/// Numeric order on digit strings without reading their value: SemVer
/// forbids leading zeroes, so a longer digit string is the larger number,
/// and equal lengths compare bytewise.
pub open spec fn num_lt(a: Seq<u8>, b: Seq<u8>) -> bool {
    a.len() < b.len() || (a.len() == b.len() && lex_lt(a, b))
}

/// SemVer order on one pre-release identifier: numeric identifiers compare
/// numerically and rank below alphanumeric ones, which compare bytewise.
pub open spec fn id_lt(a: Seq<u8>, b: Seq<u8>) -> bool {
    if is_numeric_id(a) && is_numeric_id(b) {
        num_lt(a, b)
    } else if is_numeric_id(a) {
        true
    } else if is_numeric_id(b) {
        false
    } else {
        lex_lt(a, b)
    }
}

/// SemVer order on pre-release identifier lists: pointwise by [`id_lt`],
/// with a proper prefix ranking below the longer list.
pub open spec fn ids_lt(a: Seq<Seq<u8>>, b: Seq<Seq<u8>>) -> bool
    decreases a.len(),
{
    if b.len() == 0 {
        false
    } else if a.len() == 0 {
        true
    } else if a[0] == b[0] {
        ids_lt(a.drop_first(), b.drop_first())
    } else {
        id_lt(a[0], b[0])
    }
}

/// SemVer precedence: numeric components first; on a tie, a pre-release
/// version ranks below the plain release, and two pre-releases compare by
/// their identifier lists. Build metadata does not take part.
pub open spec fn version_lt(a: VersionV, b: VersionV) -> bool {
    if a.major != b.major {
        a.major < b.major
    } else if a.minor != b.minor {
        a.minor < b.minor
    } else if a.patch != b.patch {
        a.patch < b.patch
    } else if a.pre.len() == 0 {
        false
    } else if b.pre.len() == 0 {
        true
    } else {
        ids_lt(a.pre, b.pre)
    }
}

pub proof fn lemma_num_lt_irrefl(a: Seq<u8>)
    ensures
        !num_lt(a, a),
{
    lemma_lex_lt_irrefl(a);
}

pub proof fn lemma_id_lt_irrefl(a: Seq<u8>)
    ensures
        !id_lt(a, a),
{
    lemma_num_lt_irrefl(a);
    lemma_lex_lt_irrefl(a);
}

pub proof fn lemma_num_lt_trans(a: Seq<u8>, b: Seq<u8>, c: Seq<u8>)
    requires
        num_lt(a, b),
        num_lt(b, c),
    ensures
        num_lt(a, c),
{
    if a.len() == b.len() && b.len() == c.len() {
        lemma_lex_lt_trans(a, b, c);
    }
}

pub proof fn lemma_num_lt_trichotomy(a: Seq<u8>, b: Seq<u8>)
    ensures
        num_lt(a, b) || num_lt(b, a) || a == b,
{
    if a.len() == b.len() {
        lemma_lex_lt_trichotomy(a, b);
    }
}

pub proof fn lemma_id_lt_trans(a: Seq<u8>, b: Seq<u8>, c: Seq<u8>)
    requires
        id_lt(a, b),
        id_lt(b, c),
    ensures
        id_lt(a, c),
{
    if is_numeric_id(a) && is_numeric_id(b) && is_numeric_id(c) {
        lemma_num_lt_trans(a, b, c);
    } else if !is_numeric_id(a) && !is_numeric_id(b) && !is_numeric_id(c) {
        lemma_lex_lt_trans(a, b, c);
    }
}

pub proof fn lemma_id_lt_trichotomy(a: Seq<u8>, b: Seq<u8>)
    ensures
        id_lt(a, b) || id_lt(b, a) || a == b,
{
    if is_numeric_id(a) && is_numeric_id(b) {
        lemma_num_lt_trichotomy(a, b);
    } else if !is_numeric_id(a) && !is_numeric_id(b) {
        lemma_lex_lt_trichotomy(a, b);
    }
}

pub proof fn lemma_ids_lt_irrefl(a: Seq<Seq<u8>>)
    ensures
        !ids_lt(a, a),
    decreases a.len(),
{
    if a.len() > 0 {
        lemma_ids_lt_irrefl(a.drop_first());
    }
}

pub proof fn lemma_ids_lt_trans(a: Seq<Seq<u8>>, b: Seq<Seq<u8>>, c: Seq<Seq<u8>>)
    requires
        ids_lt(a, b),
        ids_lt(b, c),
    ensures
        ids_lt(a, c),
    decreases a.len() + b.len() + c.len(),
{
    if a.len() == 0 {
        // ids_lt(b, c) forces c to be nonempty, so ids_lt(a, c) holds.
    } else {
        // Both hypotheses force b and c nonempty.
        if a[0] == b[0] {
            if b[0] == c[0] {
                lemma_ids_lt_trans(a.drop_first(), b.drop_first(), c.drop_first());
            } else {
                if a[0] == c[0] {
                    lemma_id_lt_irrefl(c[0]);
                }
            }
        } else {
            if b[0] == c[0] {
                // a[0] != c[0] follows, and id_lt(a[0], c[0]) == id_lt(a[0], b[0]).
            } else {
                lemma_id_lt_trans(a[0], b[0], c[0]);
                if a[0] == c[0] {
                    lemma_id_lt_irrefl(a[0]);
                }
            }
        }
    }
}

pub proof fn lemma_ids_lt_trichotomy(a: Seq<Seq<u8>>, b: Seq<Seq<u8>>)
    ensures
        ids_lt(a, b) || ids_lt(b, a) || a == b,
    decreases a.len(),
{
    if a.len() == 0 && b.len() == 0 {
        assert(a =~= b);
    } else if a.len() > 0 && b.len() > 0 {
        if a[0] == b[0] {
            lemma_ids_lt_trichotomy(a.drop_first(), b.drop_first());
            if a.drop_first() == b.drop_first() {
                assert(a =~= seq![a[0]] + a.drop_first());
                assert(b =~= seq![b[0]] + b.drop_first());
            }
        } else {
            lemma_id_lt_trichotomy(a[0], b[0]);
        }
    }
}

pub proof fn lemma_version_lt_irrefl(a: VersionV)
    ensures
        !version_lt(a, a),
{
    if a.pre.len() > 0 {
        lemma_ids_lt_irrefl(a.pre);
    }
}

pub proof fn lemma_version_lt_trans(a: VersionV, b: VersionV, c: VersionV)
    requires
        version_lt(a, b),
        version_lt(b, c),
    ensures
        version_lt(a, c),
{
    if a.major == b.major && b.major == c.major && a.minor == b.minor && b.minor == c.minor
        && a.patch == b.patch && b.patch == c.patch {
        if a.pre.len() > 0 && b.pre.len() > 0 && c.pre.len() > 0 {
            lemma_ids_lt_trans(a.pre, b.pre, c.pre);
        }
    }
}

pub proof fn lemma_version_lt_trichotomy(a: VersionV, b: VersionV)
    ensures
        version_lt(a, b) || version_lt(b, a) || a == b,
{
    if a.major == b.major && a.minor == b.minor && a.patch == b.patch {
        if a.pre.len() == 0 && b.pre.len() == 0 {
            assert(a.pre =~= b.pre);
            assert(a =~~= b);
        } else if a.pre.len() > 0 && b.pre.len() > 0 {
            lemma_ids_lt_trichotomy(a.pre, b.pre);
            if a.pre == b.pre {
                assert(a =~~= b);
            }
        }
    }
}

/// Skipping an equal prefix does not change the identifier-list order.
pub proof fn lemma_ids_lt_skip(a: Seq<Seq<u8>>, b: Seq<Seq<u8>>, i: int)
    requires
        0 <= i <= a.len(),
        i <= b.len(),
        forall|j: int| 0 <= j < i ==> a[j] == b[j],
    ensures
        ids_lt(a, b) == ids_lt(a.skip(i), b.skip(i)),
    decreases i,
{
    if i > 0 {
        assert(a[0] == b[0]);
        assert(a.drop_first().skip(i - 1) =~= a.skip(i));
        assert(b.drop_first().skip(i - 1) =~= b.skip(i));
        assert(forall|j: int|
            0 <= j < i - 1 ==> #[trigger] a.drop_first()[j] == b.drop_first()[j]);
        lemma_ids_lt_skip(a.drop_first(), b.drop_first(), i - 1);
    } else {
        assert(a.skip(0) =~= a);
        assert(b.skip(0) =~= b);
    }
}

fn lex_lt_exec(a: &Vec<u8>, b: &Vec<u8>) -> (r: bool)
    ensures
        r == lex_lt(a@, b@),
{
    let mut i: usize = 0;
    while i < a.len() && i < b.len()
        invariant
            i <= a.len(),
            i <= b.len(),
            forall|j: int| 0 <= j < i ==> a@[j] == b@[j],
        decreases a.len() - i,
    {
        if a[i] != b[i] {
            proof {
                lemma_lex_lt_skip(a@, b@, i as int);
            }
            return a[i] < b[i];
        }
        i += 1;
    }
    proof {
        lemma_lex_lt_skip(a@, b@, i as int);
    }
    a.len() < b.len()
}

fn is_numeric_exec(a: &Vec<u8>) -> (r: bool)
    ensures
        r == is_numeric_id(a@),
{
    if a.len() == 0 {
        return false;
    }
    let n = a.len();
    let mut i: usize = 0;
    while i < n
        invariant
            n == a.len(),
            i <= n,
            forall|j: int| 0 <= j < i ==> is_digit(#[trigger] a@[j]),
        decreases n - i,
    {
        let c = a[i];
        if c < 0x30 || c > 0x39 {
            return false;
        }
        i += 1;
    }
    true
}

fn id_lt_exec(a: &Vec<u8>, b: &Vec<u8>) -> (r: bool)
    ensures
        r == id_lt(a@, b@),
{
    let an = is_numeric_exec(a);
    let bn = is_numeric_exec(b);
    if an && bn {
        if a.len() != b.len() {
            a.len() < b.len()
        } else {
            lex_lt_exec(a, b)
        }
    } else if an {
        true
    } else if bn {
        false
    } else {
        lex_lt_exec(a, b)
    }
}

fn ids_lt_exec(a: &Vec<Vec<u8>>, b: &Vec<Vec<u8>>) -> (r: bool)
    ensures
        r == ids_lt(a.deep_view(), b.deep_view()),
{
    proof {
        lemma_deep_view_elts(a);
        lemma_deep_view_elts(b);
    }
    let mut i: usize = 0;
    while i < a.len() && i < b.len()
        invariant
            i <= a.len(),
            i <= b.len(),
            a.deep_view().len() == a@.len(),
            b.deep_view().len() == b@.len(),
            forall|k: int| 0 <= k < a@.len() ==> #[trigger] a.deep_view()[k] == a@[k]@,
            forall|k: int| 0 <= k < b@.len() ==> #[trigger] b.deep_view()[k] == b@[k]@,
            forall|j: int| 0 <= j < i ==> a.deep_view()[j] == b.deep_view()[j],
        decreases a.len() - i,
    {
        if !bytes_eq(&a[i], &b[i]) {
            proof {
                lemma_ids_lt_skip(a.deep_view(), b.deep_view(), i as int);
                assert(a.deep_view().skip(i as int)[0] == a.deep_view()[i as int]);
                assert(b.deep_view().skip(i as int)[0] == b.deep_view()[i as int]);
            }
            return id_lt_exec(&a[i], &b[i]);
        }
        i += 1;
    }
    proof {
        lemma_ids_lt_skip(a.deep_view(), b.deep_view(), i as int);
    }
    a.len() < b.len()
}

/// Strict SemVer precedence on two parsed versions.
pub fn version_lt_exec(a: &Version, b: &Version) -> (r: bool)
    ensures
        r == version_lt(a@, b@),
{
    if a.major != b.major {
        return a.major < b.major;
    }
    if a.minor != b.minor {
        return a.minor < b.minor;
    }
    if a.patch != b.patch {
        return a.patch < b.patch;
    }
    if a.pre.len() == 0 {
        return false;
    }
    if b.pre.len() == 0 {
        return true;
    }
    ids_lt_exec(&a.pre, &b.pre)
}

/// What `semver` parses out of a version text: major, minor and patch
/// numbers and the raw pre-release text (empty when absent), or nothing when
/// the text is not a semantic version.
pub uninterp spec fn semver_parts(s: Seq<char>) -> Option<(u64, u64, u64, Seq<u8>)>;

/// Relies on `semver::Version::parse` for the semantic-version grammar; the
/// outcome is a function of the text alone, and build metadata is dropped.
#[verifier::external_body]
fn parse_semver_text(s: &str) -> (r: Option<(u64, u64, u64, Vec<u8>)>)
    ensures
        match r {
            Some(p) => semver_parts(s@) == Some((p.0, p.1, p.2, p.3@)),
            None => semver_parts(s@) is None,
        },
{
    match semver::Version::parse(s) {
        Ok(v) => Some((v.major, v.minor, v.patch, v.pre.as_str().as_bytes().to_vec())),
        Err(_) => None,
    }
}

/// The version a successfully parsed text denotes: the three numbers, and
/// the pre-release text split at every dot (0x2e).
pub open spec fn version_of_parts(major: u64, minor: u64, patch: u64, pre: Seq<u8>) -> VersionV {
    VersionV {
        major: major as int,
        minor: minor as int,
        patch: patch as int,
        pre: split_byte(pre, 0x2e),
    }
}

/// The version denoted by a text, if it parses.
pub open spec fn parsed_version(s: Seq<char>) -> Option<VersionV> {
    match semver_parts(s) {
        Some(p) => Some(version_of_parts(p.0, p.1, p.2, p.3)),
        None => None,
    }
}

/// Split pre-release text at every dot into its identifiers.
fn split_ids(s: &Vec<u8>) -> (r: Vec<Vec<u8>>)
    ensures
        r.deep_view() == split_byte(s@, 0x2e),
{
    split_at_byte(s, 0x2e)
}

/// Parse a semantic-version text into the catalog's version model, or
/// nothing when the text is not a semantic version.
pub fn parse_version(s: &str) -> (r: Option<Version>)
    ensures
        match r {
            Some(v) => parsed_version(s@) == Some(v@),
            None => parsed_version(s@) is None,
        },
{
    match parse_semver_text(s) {
        None => None,
        Some((major, minor, patch, pre)) => {
            let ids = split_ids(&pre);
            let v = Version { major, minor, patch, pre: ids };
            proof {
                assert(v@ =~~= version_of_parts(major, minor, patch, pre@));
            }
            Some(v)
        },
    }
}

} // verus!
