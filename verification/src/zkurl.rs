//! The zkURL address scheme: `zk://[proverId@]domainOrHash/proofId[#metadata]`.
//!
//! `spec_parse` is the grammar's mathematical statement; `ZkURL::parse` is the
//! executable parser, proved to return exactly what `spec_parse` says for
//! every input string.

use vstd::prelude::*;
use vstd::string::*;

verus! {

/// Errors raised while parsing or handling zkURL address text.
#[derive(Debug, Clone, PartialEq, Eq)]
pub enum ZkURLError {
    /// The text does not begin with the `zk://` scheme prefix.
    InvalidScheme,
    /// No `/` separates the domain-or-hash from the proof id.
    InvalidFormat,
    /// Any other parse failure, with a description.
    ParseError(String),
}

/// Optional metadata carried in the fragment of a zkURL.
#[derive(Debug, Clone, PartialEq, Eq)]
pub struct ZkURLMetadata {
    pub version: String,
    pub compression: Option<String>,
    pub proof_type: String,
}

/// A parsed zkURL reference. Immutable once parsed.
#[derive(Debug, Clone, PartialEq, Eq)]
pub struct ZkURL {
    /// Optional prover identifier (public key or unique string).
    pub prover_id: Option<String>,
    /// Domain name or content hash locating the proof.
    pub domain_or_hash: String,
    /// Proof identifier, unique within the domain or hash.
    pub proof_id: String,
    /// Optional metadata (versioning, compression, proof type).
    pub metadata: Option<ZkURLMetadata>,
}

/// Mathematical value of a `ZkURLMetadata`.
pub struct ZkURLMetadataView {
    pub version: Seq<char>,
    pub compression: Option<Seq<char>>,
    pub proof_type: Seq<char>,
}

/// Mathematical value of a `ZkURL`.
pub struct ZkURLView {
    pub prover_id: Option<Seq<char>>,
    pub domain_or_hash: Seq<char>,
    pub proof_id: Seq<char>,
    pub metadata: Option<ZkURLMetadataView>,
}

impl View for ZkURLMetadata {
    type V = ZkURLMetadataView;

    open spec fn view(&self) -> ZkURLMetadataView {
        ZkURLMetadataView {
            version: self.version@,
            compression: match self.compression {
                Option::Some(c) => Option::Some(c@),
                Option::None => Option::None,
            },
            proof_type: self.proof_type@,
        }
    }
}

impl View for ZkURL {
    type V = ZkURLView;

    open spec fn view(&self) -> ZkURLView {
        ZkURLView {
            prover_id: match self.prover_id {
                Option::Some(p) => Option::Some(p@),
                Option::None => Option::None,
            },
            domain_or_hash: self.domain_or_hash@,
            proof_id: self.proof_id@,
            metadata: match self.metadata {
                Option::Some(m) => Option::Some(m@),
                Option::None => Option::None,
            },
        }
    }
}

/// Index of the first occurrence of `c` in `s` at or after `from`.
pub open spec fn spec_find(s: Seq<char>, c: char, from: int) -> Option<int>
    decreases s.len() - from,
{
    if from < 0 || from >= s.len() {
        Option::None
    } else if s[from] == c {
        Option::Some(from)
    } else {
        spec_find(s, c, from + 1)
    }
}

/// The characters of the `zk://` scheme prefix.
pub open spec fn zk_scheme() -> Seq<char> {
    seq!['z', 'k', ':', '/', '/']
}

/// Whether `s` begins with the `zk://` scheme prefix.
pub open spec fn has_zk_scheme(s: Seq<char>) -> bool {
    s.len() >= 5 && s.subrange(0, 5) == zk_scheme()
}

/// The default proof type used when the fragment names none.
pub open spec fn default_proof_type() -> Seq<char> {
    seq!['s', 't', 'a', 'r', 'k']
}

/// Splits the optional prover id off the text after the scheme. A prover id
/// is recognised exactly when the text holds a single `@`; with none the
/// whole text remains, and with several the text before the first `@`
/// remains and no prover id is taken.
pub open spec fn spec_split_prover(rest: Seq<char>) -> (Option<Seq<char>>, Seq<char>) {
    match spec_find(rest, '@', 0) {
        Option::None => (Option::None::<Seq<char>>, rest),
        Option::Some(i) => match spec_find(rest, '@', i + 1) {
            Option::None => (
                Option::Some(rest.subrange(0, i)),
                rest.subrange(i + 1, rest.len() as int),
            ),
            Option::Some(_) => (Option::None::<Seq<char>>, rest.subrange(0, i)),
        },
    }
}

/// Meaning of the fragment text: `&`-joined positional fields
/// version, compression, proof type; fields beyond the third are ignored,
/// and a missing proof type defaults to `stark`.
pub open spec fn spec_parse_metadata(m: Seq<char>) -> ZkURLMetadataView {
    match spec_find(m, '&', 0) {
        Option::None => ZkURLMetadataView {
            version: m,
            compression: Option::None,
            proof_type: default_proof_type(),
        },
        Option::Some(a) => {
            let version = m.subrange(0, a);
            match spec_find(m, '&', a + 1) {
                Option::None => ZkURLMetadataView {
                    version,
                    compression: Option::Some(m.subrange(a + 1, m.len() as int)),
                    proof_type: default_proof_type(),
                },
                Option::Some(b) => ZkURLMetadataView {
                    version,
                    compression: Option::Some(m.subrange(a + 1, b)),
                    proof_type: match spec_find(m, '&', b + 1) {
                        Option::None => m.subrange(b + 1, m.len() as int),
                        Option::Some(c) => m.subrange(b + 1, c),
                    },
                },
            }
        },
    }
}

/// Meaning of zkURL text: either the parsed address or the error owed.
/// `InvalidScheme` exactly when the scheme prefix is missing,
/// `InvalidFormat` exactly when no `/` separates domain-or-hash from
/// proof id; every other string parses.
pub open spec fn spec_parse(s: Seq<char>) -> Result<ZkURLView, ZkURLError> {
    if !has_zk_scheme(s) {
        Result::Err(ZkURLError::InvalidScheme)
    } else {
        let rest = s.subrange(5, s.len() as int);
        let split = spec_split_prover(rest);
        let prover_id = split.0;
        let rem = split.1;
        let frag = spec_find(rem, '#', 0);
        let left = match frag {
            Option::None => rem,
            Option::Some(p) => rem.subrange(0, p),
        };
        let meta = match frag {
            Option::None => Option::None::<Seq<char>>,
            Option::Some(p) => Option::Some(rem.subrange(p + 1, rem.len() as int)),
        };
        match spec_find(left, '/', 0) {
            Option::None => Result::Err(ZkURLError::InvalidFormat),
            Option::Some(q) => Result::Ok(ZkURLView {
                prover_id,
                domain_or_hash: left.subrange(0, q),
                proof_id: left.subrange(q + 1, left.len() as int),
                metadata: match meta {
                    Option::None => Option::None,
                    Option::Some(m) => Option::Some(spec_parse_metadata(m)),
                },
            }),
        }
    }
}

/// Index of the first occurrence of `c` in `s` at or after `from`.
pub fn find_char(s: &str, from: usize, c: char) -> (r: Option<usize>)
    requires
        from as int <= s@.len(),
    ensures
        (match r {
            Option::Some(i) => from <= i < s@.len() && spec_find(s@, c, from as int)
                == Option::Some(i as int),
            Option::None => spec_find(s@, c, from as int) is None,
        }),
{
    let n = s.unicode_len();
    let mut i = from;
    while i < n
        invariant
            from <= i <= n,
            n == s@.len(),
            spec_find(s@, c, from as int) == spec_find(s@, c, i as int),
        decreases n - i,
    {
        if s.get_char(i) == c {
            return Option::Some(i);
        }
        i = i + 1;
    }
    Option::None
}

/// Whether `s` begins with the `zk://` scheme prefix.
fn has_scheme_exec(s: &str) -> (r: bool)
    ensures
        r == has_zk_scheme(s@),
{
    let n = s.unicode_len();
    if n < 5 {
        return false;
    }
    let ok = s.get_char(0) == 'z' && s.get_char(1) == 'k' && s.get_char(2) == ':' && s.get_char(3)
        == '/' && s.get_char(4) == '/';
    proof {
        let sub = s@.subrange(0, 5);
        assert(sub[0] == s@[0] && sub[1] == s@[1] && sub[2] == s@[2] && sub[3] == s@[3] && sub[4]
            == s@[4]);
        assert(zk_scheme()[0] == 'z' && zk_scheme()[1] == 'k' && zk_scheme()[2] == ':'
            && zk_scheme()[3] == '/' && zk_scheme()[4] == '/');
        if ok {
            assert(sub =~= zk_scheme());
        } else {
            assert(sub != zk_scheme());
        }
    }
    ok
}

impl ZkURLMetadata {
    /// Parses the fragment text of a zkURL (for example `v1&gzip&stark`).
    /// Every fragment parses; the result is exactly `spec_parse_metadata`.
    pub fn parse(s: &str) -> (r: Result<ZkURLMetadata, ZkURLError>)
        ensures
            r is Ok,
            r matches Ok(m) ==> m@ == spec_parse_metadata(s@),
    {
        let n = s.unicode_len();
        proof {
            reveal_strlit("stark");
            assert("stark"@ =~= default_proof_type());
        }
        match find_char(s, 0, '&') {
            Option::None => {
                let m = ZkURLMetadata {
                    version: s.to_owned(),
                    compression: Option::None,
                    proof_type: "stark".to_owned(),
                };
                assert(m@ == spec_parse_metadata(s@));
                Result::Ok(m)
            },
            Option::Some(a) => {
                let version = s.substring_char(0, a).to_owned();
                match find_char(s, a + 1, '&') {
                    Option::None => {
                        let m = ZkURLMetadata {
                            version,
                            compression: Option::Some(s.substring_char(a + 1, n).to_owned()),
                            proof_type: "stark".to_owned(),
                        };
                        assert(m@ == spec_parse_metadata(s@));
                        Result::Ok(m)
                    },
                    Option::Some(b) => {
                        let compression = Option::Some(s.substring_char(a + 1, b).to_owned());
                        let proof_type = match find_char(s, b + 1, '&') {
                            Option::None => s.substring_char(b + 1, n).to_owned(),
                            Option::Some(c) => s.substring_char(b + 1, c).to_owned(),
                        };
                        let m = ZkURLMetadata { version, compression, proof_type };
                        assert(m@ == spec_parse_metadata(s@));
                        Result::Ok(m)
                    },
                }
            },
        }
    }
}

impl ZkURL {
    /// Parses zkURL text of the form
    /// `zk://[proverId@]domainOrHash/proofId[#metadata]`.
    /// The result is exactly what `spec_parse` assigns to the text:
    /// `InvalidScheme` without the prefix, `InvalidFormat` without a `/`
    /// separator, and the parsed address otherwise.
    pub fn parse(s: &str) -> (r: Result<ZkURL, ZkURLError>)
        ensures
            (match r {
                Result::Ok(u) => spec_parse(s@) == Result::Ok::<ZkURLView, ZkURLError>(u@),
                Result::Err(e) => spec_parse(s@) == Result::Err::<ZkURLView, ZkURLError>(e),
            }),
    {
        if !has_scheme_exec(s) {
            return Result::Err(ZkURLError::InvalidScheme);
        }
        let n = s.unicode_len();
        let rest = s.substring_char(5, n);
        let rest_len = rest.unicode_len();
        let ghost gsplit = spec_split_prover(rest@);
        let (prover_id, rem): (Option<String>, &str) = match find_char(rest, 0, '@') {
            Option::None => (Option::None, rest),
            Option::Some(i1) => match find_char(rest, i1 + 1, '@') {
                Option::None => (
                    Option::Some(rest.substring_char(0, i1).to_owned()),
                    rest.substring_char(i1 + 1, rest_len),
                ),
                Option::Some(_) => (Option::None, rest.substring_char(0, i1)),
            },
        };
        assert(rem@ == gsplit.1);
        assert((match prover_id {
            Option::Some(p) => gsplit.0 == Option::Some(p@),
            Option::None => gsplit.0 is None,
        }));
        let rem_len = rem.unicode_len();
        let (left, meta_str): (&str, Option<&str>) = match find_char(rem, 0, '#') {
            Option::None => (rem, Option::None),
            Option::Some(p) => (
                rem.substring_char(0, p),
                Option::Some(rem.substring_char(p + 1, rem_len)),
            ),
        };
        let left_len = left.unicode_len();
        match find_char(left, 0, '/') {
            Option::None => Result::Err(ZkURLError::InvalidFormat),
            Option::Some(q) => {
                let domain_or_hash = left.substring_char(0, q).to_owned();
                let proof_id = left.substring_char(q + 1, left_len).to_owned();
                let metadata = match meta_str {
                    Option::None => Option::None,
                    Option::Some(m) => match ZkURLMetadata::parse(m) {
                        Result::Ok(md) => Option::Some(md),
                        Result::Err(e) => {
                            return Result::Err(e);
                        },
                    },
                };
                let u = ZkURL { prover_id, domain_or_hash, proof_id, metadata };
                assert(spec_parse(s@) == Result::Ok::<ZkURLView, ZkURLError>(u@));
                Result::Ok(u)
            },
        }
    }
}

} // verus!
