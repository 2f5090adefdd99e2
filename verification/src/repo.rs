//! The reference resolver: classifies a raw input string into a full HTTPS
//! or SSH URL or a shorthand reference, and derives from it the clone URL
//! and the filesystem path under the workspace.
//!
//! The resolver never touches the filesystem itself: the one existence test
//! it depends on (whether `basePath/input` is already a directory, which
//! reinterprets the first segment of a bare input as a domain) is handed in
//! by the caller as `target_exists`.

use vstd::prelude::*;
use crate::config::{Config, ConfigV};
use crate::strings::{
    contains_seq, contains_str, ends_with_seq, ends_with_str, has_char, has_char_str, join_seq,
    join_range, lemma_has_char_count, lemma_split_len, split_seq, split_str, str_views,
};

verus! {

/// A scheme-prefixed URL, reduced to what the resolver reads of it: the
/// parser's serialization, the host domain, and the path.
#[derive(PartialEq, Eq, Debug)]
pub struct FullUrl {
    pub raw: String,
    pub domain: String,
    pub path: String,
}

/// A shorthand reference. `Repo::parse` never builds one with an empty
/// domain, and `get_sub_path` strips every leading slash from the stored
/// path (see `lemma_parse_reference_invariant`).
#[derive(PartialEq, Eq, Debug)]
pub struct ShortHandUrl {
    pub is_https: bool,
    pub domain: String,
    pub path: String,
}

/// The shapes an input string can take.
#[derive(PartialEq, Eq, Debug)]
pub enum RepoUrl {
    Https(FullUrl),
    SSH(FullUrl),
    Short(ShortHandUrl),
}

/// A parsed repository reference.
#[derive(PartialEq, Eq, Debug)]
pub struct Repo {
    pub url: RepoUrl,
}

/// A scheme-prefixed input failed structural URL parsing. Fatal to the
/// calling command.
#[derive(PartialEq, Eq, Debug, Clone, Copy)]
pub enum RepoError {
    MalformedUrl,
}

/// Mathematical model of a `FullUrl`.
pub struct FullUrlV {
    pub raw: Seq<char>,
    pub domain: Seq<char>,
    pub path: Seq<char>,
}

/// Mathematical model of a `ShortHandUrl`.
pub struct ShortHandUrlV {
    pub is_https: bool,
    pub domain: Seq<char>,
    pub path: Seq<char>,
}

/// Mathematical model of a `RepoUrl`.
pub enum RepoUrlV {
    Https(FullUrlV),
    SSH(FullUrlV),
    Short(ShortHandUrlV),
}

/// Mathematical model of a `Repo`.
pub struct RepoV {
    pub url: RepoUrlV,
}

impl View for FullUrl {
    type V = FullUrlV;

    open spec fn view(&self) -> FullUrlV {
        FullUrlV { raw: self.raw@, domain: self.domain@, path: self.path@ }
    }
}

impl View for ShortHandUrl {
    type V = ShortHandUrlV;

    open spec fn view(&self) -> ShortHandUrlV {
        ShortHandUrlV { is_https: self.is_https, domain: self.domain@, path: self.path@ }
    }
}

impl View for RepoUrl {
    type V = RepoUrlV;

    open spec fn view(&self) -> RepoUrlV {
        match self {
            RepoUrl::Https(f) => RepoUrlV::Https(f@),
            RepoUrl::SSH(f) => RepoUrlV::SSH(f@),
            RepoUrl::Short(s) => RepoUrlV::Short(s@),
        }
    }
}

impl View for Repo {
    type V = RepoV;

    open spec fn view(&self) -> RepoV {
        RepoV { url: self.url@ }
    }
}

/// What `url::Url::parse` yields for this input, when the input parses and
/// its host is a domain: the URL's serialization, its domain, and its path.
pub uninterp spec fn url_parts(s: Seq<char>) -> Option<(Seq<char>, Seq<char>, Seq<char>)>;

/// Relies on `url::Url::parse`, `Url::as_str`, `Url::domain` and
/// `Url::path`: parses an absolute URL and hands back its serialization,
/// domain and path; `None` when parsing fails or the host is no domain.
#[verifier::external_body]
fn parse_url(s: &str) -> (r: Option<(String, String, String)>)
    ensures
        r is Some <==> url_parts(s@) is Some,
        r is Some ==> (r.unwrap().0@, r.unwrap().1@, r.unwrap().2@) == url_parts(s@).unwrap(),
{
    match url::Url::parse(s) {
        Ok(u) => match u.domain() {
            Some(d) => Some((u.as_str().to_string(), d.to_string(), u.path().to_string())),
            None => None,
        },
        Err(_) => None,
    }
}

/// The input is treated as a full HTTPS URL.
pub open spec fn is_https_url_seq(s: Seq<char>) -> bool {
    contains_seq(s, "https://"@)
}

/// The input is treated as a full SSH URL.
pub open spec fn is_ssh_url_seq(s: Seq<char>) -> bool {
    contains_seq(s, "ssh://"@)
}

/// Whether the input holds the HTTPS scheme marker.
pub fn is_https_url(url: &str) -> (r: bool)
    ensures
        r == is_https_url_seq(url@),
{
    contains_str(url, "https://")
}

/// Whether the input holds the SSH scheme marker.
pub fn is_ssh_url(url: &str) -> (r: bool)
    ensures
        r == is_ssh_url_seq(url@),
{
    contains_str(url, "ssh://")
}

/// What parsing a scheme-prefixed input yields: a full reference carrying
/// the parser's serialization, domain and path, or `MalformedUrl` when the
/// URL parser rejects the input or yields an empty domain.
pub open spec fn parse_full_spec(s: Seq<char>, https: bool) -> Result<RepoV, RepoError> {
    match url_parts(s) {
        None => Err(RepoError::MalformedUrl),
        Some(p) => if p.1.len() == 0 {
            Err(RepoError::MalformedUrl)
        } else {
            Ok(
                RepoV {
                    url: if https {
                        RepoUrlV::Https(FullUrlV { raw: p.0, domain: p.1, path: p.2 })
                    } else {
                        RepoUrlV::SSH(FullUrlV { raw: p.0, domain: p.1, path: p.2 })
                    },
                },
            )
        },
    }
}

/// The domain of an SSH-shorthand first segment: the part before the first
/// colon, and of that the part after the last `@`.
pub open spec fn shorthand_domain_spec(first: Seq<char>) -> Seq<char> {
    split_seq(split_seq(first, ':')[0], '@').last()
}

/// The path of an SSH-shorthand input: within the first `/`-segment, the
/// part between the first and any second colon, rejoined with the remaining
/// `/`-segments.
pub open spec fn shorthand_path_spec(s: Seq<char>) -> Seq<char> {
    let segs = split_seq(s, '/');
    let after = split_seq(segs[0], ':')[1];
    join_seq(seq![after] + segs.drop_first(), '/')
}

/// What resolving an input yields. Classification order: an input holding
/// `https://` is a full HTTPS URL; one holding `ssh://` is a full SSH URL;
/// one whose first `/`-segment holds a colon is an SSH shorthand; any other
/// input is a bare path under the default domain — unless `target_exists`
/// says `basePath/input` is already a directory, in which case the first
/// segment is reinterpreted as the domain.
///
/// The domain of a reference is never empty: a shorthand whose domain
/// comes out empty is rejected as `MalformedUrl`, the existence-based
/// reinterpretation applies only when the first segment is non-empty, and
/// a bare input is rejected when the configured default domain is itself
/// empty.
pub open spec fn parse_spec(s: Seq<char>, conf: ConfigV, target_exists: bool) -> Result<
    RepoV,
    RepoError,
> {
    if is_https_url_seq(s) {
        parse_full_spec(s, true)
    } else if is_ssh_url_seq(s) {
        parse_full_spec(s, false)
    } else {
        let segs = split_seq(s, '/');
        if has_char(segs[0], ':') {
            if shorthand_domain_spec(segs[0]).len() == 0 {
                Err(RepoError::MalformedUrl)
            } else {
                Ok(
                    RepoV {
                        url: RepoUrlV::Short(
                            ShortHandUrlV {
                                is_https: false,
                                domain: shorthand_domain_spec(segs[0]),
                                path: shorthand_path_spec(s),
                            },
                        ),
                    },
                )
            }
        } else if target_exists && segs[0].len() > 0 {
            Ok(
                RepoV {
                    url: RepoUrlV::Short(
                        ShortHandUrlV {
                            is_https: conf.default_https,
                            domain: segs[0],
                            path: join_seq(segs.drop_first(), '/'),
                        },
                    ),
                },
            )
        } else if conf.default_domain.len() == 0 {
            Err(RepoError::MalformedUrl)
        } else {
            Ok(
                RepoV {
                    url: RepoUrlV::Short(
                        ShortHandUrlV {
                            is_https: conf.default_https,
                            domain: conf.default_domain,
                            path: s,
                        },
                    ),
                },
            )
        }
    }
}

/// The string the clone subprocess receives: a full URL as the parser
/// serialized it; for a shorthand, `https://{domain}/{path}` when HTTPS is
/// wanted and `git@{domain}:{path}` otherwise.
pub open spec fn clone_url_spec(r: RepoV) -> Seq<char> {
    match r.url {
        RepoUrlV::Https(f) => f.raw,
        RepoUrlV::SSH(f) => f.raw,
        RepoUrlV::Short(s) => if s.is_https {
            "https://"@ + s.domain + seq!['/'] + s.path
        } else {
            "git@"@ + s.domain + seq![':'] + s.path
        },
    }
}

/// The domain of a reference.
pub open spec fn domain_spec(r: RepoV) -> Seq<char> {
    match r.url {
        RepoUrlV::Https(f) => f.domain,
        RepoUrlV::SSH(f) => f.domain,
        RepoUrlV::Short(s) => s.domain,
    }
}

/// A path with every leading slash stripped.
pub open spec fn remove_leading_slash_spec(p: Seq<char>) -> Seq<char>
    decreases p.len(),
{
    if p.len() > 0 && p[0] == '/' {
        remove_leading_slash_spec(p.drop_first())
    } else {
        p
    }
}

/// The path of a reference below its domain, with every leading slash
/// stripped, whatever the reference's shape.
pub open spec fn sub_path_spec(r: RepoV) -> Seq<char> {
    match r.url {
        RepoUrlV::Https(f) => remove_leading_slash_spec(f.path),
        RepoUrlV::SSH(f) => remove_leading_slash_spec(f.path),
        RepoUrlV::Short(s) => remove_leading_slash_spec(s.path),
    }
}

/// What the stripping guarantees: the result never begins with a slash.
pub proof fn lemma_remove_leading_slash(p: Seq<char>)
    ensures
        remove_leading_slash_spec(p).len() > 0 ==> remove_leading_slash_spec(p)[0] != '/',
    decreases p.len(),
{
    if p.len() > 0 && p[0] == '/' {
        lemma_remove_leading_slash(p.drop_first());
    }
}

/// A segment with a trailing literal `.git` removed, when the segment is
/// longer than the suffix itself (so a segment that is nothing but `.git`
/// stays as it is).
pub open spec fn strip_git_spec(seg: Seq<char>) -> Seq<char> {
    if seg.len() > ".git"@.len() && ends_with_seq(seg, ".git"@) {
        seg.take(seg.len() - ".git"@.len())
    } else {
        seg
    }
}

/// The filesystem path of a reference: `basePath/domain/path`, where a
/// trailing `.git` is stripped from the last path segment only.
pub open spec fn fs_path_spec(r: RepoV, conf: ConfigV) -> Seq<char> {
    let segs = split_seq(sub_path_spec(r), '/');
    let stripped = segs.update(segs.len() - 1, strip_git_spec(segs.last()));
    conf.base_path + seq!['/'] + domain_spec(r) + seq!['/'] + join_seq(stripped, '/')
}

/// The model of a parse result.
pub open spec fn res_view(r: Result<Repo, RepoError>) -> Result<RepoV, RepoError> {
    match r {
        Ok(repo) => Ok(repo@),
        Err(e) => Err(e),
    }
}

impl Repo {
    /// Classifies the input and builds the reference, as `parse_spec` says.
    /// `target_exists` tells whether `basePath/input` is already a
    /// directory; callers that skip that test pass `false`.
    pub fn parse(url: &str, conf: &Config, target_exists: bool) -> (r: Result<Repo, RepoError>)
        ensures
            res_view(r) == parse_spec(url@, conf@, target_exists),
    {
        if is_https_url(url) {
            return Self::parse_full(url, true);
        }
        if is_ssh_url(url) {
            return Self::parse_full(url, false);
        }
        let paths = split_str(url, '/');
        let ghost segs = split_seq(url@, '/');
        proof {
            assert(str_views(paths@)[0] == paths@[0]@);
        }
        if has_char_str(paths[0].as_str(), ':') {
            proof {
                lemma_has_char_count(segs[0], ':');
                lemma_split_len(segs[0], ':');
            }
            let colon_parts = split_str(paths[0].as_str(), ':');
            let at_parts = split_str(colon_parts[0].as_str(), '@');
            proof {
                assert(str_views(colon_parts@)[0] == colon_parts@[0]@);
                assert(str_views(colon_parts@)[1] == colon_parts@[1]@);
                assert(str_views(at_parts@)[at_parts@.len() - 1] == at_parts@[at_parts@.len()
                    - 1]@);
            }
            let domain = at_parts[at_parts.len() - 1].clone();
            if domain.as_str().unicode_len() == 0 {
                return Err(RepoError::MalformedUrl);
            }
            let mut path = colon_parts[1].clone();
            let ghost after = split_seq(segs[0], ':')[1];
            if paths.len() > 1 {
                path.push('/');
                let rest = join_range(&paths, 1, paths.len(), '/');
                path.append(rest.as_str());
                proof {
                    let parts2 = seq![after] + segs.drop_first();
                    assert(parts2.drop_first() =~= segs.drop_first());
                    assert(str_views(paths@).subrange(1, paths@.len() as int) =~= segs.drop_first());
                    assert(path@ =~= join_seq(parts2, '/'));
                }
            } else {
                proof {
                    let parts2 = seq![after] + segs.drop_first();
                    assert(parts2.len() == 1);
                    assert(parts2[0] == after);
                }
            }
            return Ok(
                Repo { url: RepoUrl::Short(ShortHandUrl { is_https: false, domain, path }) },
            );
        }
        if target_exists && paths[0].as_str().unicode_len() > 0 {
            let domain = paths[0].clone();
            let path = join_range(&paths, 1, paths.len(), '/');
            proof {
                assert(str_views(paths@).subrange(1, paths@.len() as int) =~= segs.drop_first());
            }
            return Ok(
                Repo {
                    url: RepoUrl::Short(
                        ShortHandUrl { is_https: conf.get_is_https(), domain, path },
                    ),
                },
            );
        }
        if conf.get_domain().as_str().unicode_len() == 0 {
            return Err(RepoError::MalformedUrl);
        }
        Ok(
            Repo {
                url: RepoUrl::Short(
                    ShortHandUrl {
                        is_https: conf.get_is_https(),
                        domain: conf.get_domain().clone(),
                        path: String::from_str(url),
                    },
                ),
            },
        )
    }

    /// The exact string handed to the clone subprocess: a full URL verbatim
    /// as serialized by the parser, a shorthand rendered over its domain and
    /// path.
    pub fn get_clone_url(&self) -> (r: String)
        ensures
            r@ == clone_url_spec(self@),
    {
        match &self.url {
            RepoUrl::Https(f) => f.raw.clone(),
            RepoUrl::SSH(f) => f.raw.clone(),
            RepoUrl::Short(s) => {
                let mut out: String;
                if s.is_https {
                    out = String::from_str("https://");
                    out.append(s.domain.as_str());
                    out.push('/');
                    out.append(s.path.as_str());
                    proof {
                        assert(out@ =~= "https://"@ + s.domain@ + seq!['/'] + s.path@);
                    }
                } else {
                    out = String::from_str("git@");
                    out.append(s.domain.as_str());
                    out.push(':');
                    out.append(s.path.as_str());
                    proof {
                        assert(out@ =~= "git@"@ + s.domain@ + seq![':'] + s.path@);
                    }
                }
                out
            },
        }
    }

    /// The directory for this reference: `basePath/domain/path`, with a
    /// trailing `.git` stripped from the last path segment only.
    pub fn get_fs_path(&self, conf: &Config) -> (r: String)
        ensures
            r@ == fs_path_spec(self@, conf@),
    {
        let sub = self.get_sub_path();
        let mut segs = split_str(sub.as_str(), '/');
        let ghost orig = str_views(segs@);
        let last = match segs.pop() {
            Some(l) => l,
            None => {
                proof {
                    assert(false);
                }
                String::new()
            },
        };
        let stripped = strip_git(last);
        segs.push(stripped);
        proof {
            assert(str_views(segs@) =~= orig.update(
                orig.len() - 1,
                strip_git_spec(orig.last()),
            ));
        }
        let joined = join_range(&segs, 0, segs.len(), '/');
        let domain = self.get_domain();
        let mut out = conf.get_base_path().clone();
        out.push('/');
        out.append(domain.as_str());
        out.push('/');
        out.append(joined.as_str());
        proof {
            assert(str_views(segs@).subrange(0, segs@.len() as int) =~= str_views(segs@));
            assert(out@ =~= conf@.base_path + seq!['/'] + domain_spec(self@) + seq!['/']
                + join_seq(str_views(segs@), '/'));
        }
        out
    }

    /// The domain of the reference.
    pub fn get_domain(&self) -> (r: String)
        ensures
            r@ == domain_spec(self@),
    {
        match &self.url {
            RepoUrl::Https(f) => f.domain.clone(),
            RepoUrl::SSH(f) => f.domain.clone(),
            RepoUrl::Short(s) => s.domain.clone(),
        }
    }

    /// The path of the reference below its domain, with every leading
    /// slash stripped.
    pub fn get_sub_path(&self) -> (r: String)
        ensures
            r@ == sub_path_spec(self@),
    {
        match &self.url {
            RepoUrl::Https(f) => remove_leading_slash(f.path.as_str()),
            RepoUrl::SSH(f) => remove_leading_slash(f.path.as_str()),
            RepoUrl::Short(s) => remove_leading_slash(s.path.as_str()),
        }
    }

    /// Parses a scheme-prefixed input through the URL parser.
    fn parse_full(url: &str, https: bool) -> (r: Result<Repo, RepoError>)
        ensures
            res_view(r) == parse_full_spec(url@, https),
    {
        match parse_url(url) {
            None => Err(RepoError::MalformedUrl),
            Some((raw, domain, path)) => {
                if domain.as_str().unicode_len() == 0 {
                    Err(RepoError::MalformedUrl)
                } else if https {
                    Ok(Repo { url: RepoUrl::Https(FullUrl { raw, domain, path }) })
                } else {
                    Ok(Repo { url: RepoUrl::SSH(FullUrl { raw, domain, path }) })
                }
            },
        }
    }
}

/// Strips every leading slash.
pub fn remove_leading_slash(path: &str) -> (r: String)
    ensures
        r@ == remove_leading_slash_spec(path@),
{
    let n = path.unicode_len();
    let mut i: usize = 0;
    proof {
        assert(path@.skip(0) =~= path@);
    }
    while i < n
        invariant
            0 <= i <= n,
            n == path@.len(),
            remove_leading_slash_spec(path@.skip(i as int)) == remove_leading_slash_spec(path@),
        decreases n - i,
    {
        proof {
            assert(path@.skip(i as int)[0] == path@[i as int]);
            assert(path@.skip(i as int).drop_first() =~= path@.skip(i + 1));
        }
        if path.get_char(i) != '/' {
            let r = String::from_str(path.substring_char(i, n));
            proof {
                assert(path@.subrange(i as int, n as int) =~= path@.skip(i as int));
            }
            return r;
        }
        i = i + 1;
    }
    proof {
        assert(path@.skip(n as int) =~= Seq::<char>::empty());
    }
    String::new()
}

/// Strips a trailing `.git` from a single segment, as `strip_git_spec` says.
fn strip_git(seg: String) -> (r: String)
    ensures
        r@ == strip_git_spec(seg@),
{
    proof {
        reveal_strlit(".git");
    }
    let n = seg.as_str().unicode_len();
    if n > 4 && ends_with_str(seg.as_str(), ".git") {
        let r = String::from_str(seg.as_str().substring_char(0, n - 4));
        proof {
            assert(seg@.subrange(0, n - 4) =~= seg@.take(seg@.len() - ".git"@.len()));
        }
        r
    } else {
        seg
    }
}

/// Round trip for full URLs: the clone URL of a resolved scheme-prefixed
/// input is exactly the serialization the URL parser gave for that input —
/// the input itself whenever the input is already in serialized form.
pub proof fn lemma_full_url_round_trip(s: Seq<char>, conf: ConfigV, target_exists: bool)
    requires
        is_https_url_seq(s) || is_ssh_url_seq(s),
        parse_spec(s, conf, target_exists) is Ok,
    ensures
        url_parts(s) is Some,
        clone_url_spec(parse_spec(s, conf, target_exists).unwrap()) == url_parts(s).unwrap().0,
{
}

/// A bare shorthand — no scheme marker, no colon in its first segment, no
/// leading slash, no directory-existence reinterpretation — resolves, under
/// a configuration whose default domain is non-empty, to that default
/// domain, with the whole input, unchanged, as its sub-path.
pub proof fn lemma_bare_shorthand(s: Seq<char>, conf: ConfigV)
    requires
        !is_https_url_seq(s),
        !is_ssh_url_seq(s),
        !has_char(split_seq(s, '/')[0], ':'),
        s.len() > 0 ==> s[0] != '/',
        conf.default_domain.len() > 0,
    ensures
        parse_spec(s, conf, false) is Ok,
        domain_spec(parse_spec(s, conf, false).unwrap()) == conf.default_domain,
        sub_path_spec(parse_spec(s, conf, false).unwrap()) == s,
{
}

/// The data-model invariant of a parsed reference: every reference the
/// resolver hands back has a non-empty domain, and its sub-path never
/// begins with a slash.
pub proof fn lemma_parse_reference_invariant(s: Seq<char>, conf: ConfigV, target_exists: bool)
    requires
        parse_spec(s, conf, target_exists) is Ok,
    ensures
        domain_spec(parse_spec(s, conf, target_exists).unwrap()).len() > 0,
        sub_path_spec(parse_spec(s, conf, target_exists).unwrap()).len() > 0
            ==> sub_path_spec(parse_spec(s, conf, target_exists).unwrap())[0] != '/',
{
    let r = parse_spec(s, conf, target_exists).unwrap();
    match r.url {
        RepoUrlV::Https(f) => lemma_remove_leading_slash(f.path),
        RepoUrlV::SSH(f) => lemma_remove_leading_slash(f.path),
        RepoUrlV::Short(sh) => lemma_remove_leading_slash(sh.path),
    }
}

} // verus!
