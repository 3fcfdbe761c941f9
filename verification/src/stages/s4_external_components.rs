//! Stage 4 — external component trust model.
//!
//! Every external dependency source must be trusted by default (the
//! Espressif registry, local paths) or covered by the caller's allow-list.
use vstd::prelude::*;
use crate::error::{ValidationError, ValidationStage, Severity, DiagnosticView, diag_hint, diags};
use crate::json::{json_get, json_str};
use crate::raw::{RawConfig, IdfComponentRef, ComponentView, comps_view};
use crate::stages::s2_substitutions::index_path;
use crate::text::{
    chars_of, owned, concat2, concat3, contains_exec, contains_seq, is_prefix, starts_with,
    u64_to_decimal, strs_view, pat_index, lemma_pat_index, find_pat, find_char, char_index, slice_range, seq_eq,
};

verus! {

/// Source / origin of an external component dependency.
#[derive(Debug, Clone, PartialEq, Eq)]
pub enum DependencySource {
    /// Official Espressif component registry — trusted by default.
    EspressifRegistry,
    /// GitHub repository — requires explicit allow.
    GitHub(String),
    /// GitLab repository — requires explicit allow.
    GitLab(String),
    /// Gitee repository — requires explicit allow.
    Gitee(String),
    /// Local filesystem path — always trusted.
    Local(String),
}

/// Abstract dependency source.
pub enum SourceV {
    EspressifRegistry,
    GitHub(Seq<char>),
    GitLab(Seq<char>),
    Gitee(Seq<char>),
    Local(Seq<char>),
}

impl View for DependencySource {
    type V = SourceV;

    open spec fn view(&self) -> SourceV {
        match self {
            DependencySource::EspressifRegistry => SourceV::EspressifRegistry,
            DependencySource::GitHub(u) => SourceV::GitHub(u@),
            DependencySource::GitLab(u) => SourceV::GitLab(u@),
            DependencySource::Gitee(u) => SourceV::Gitee(u@),
            DependencySource::Local(u) => SourceV::Local(u@),
        }
    }
}

/// The host of a URL: the text after its first `://`, up to the next `/`.
pub open spec fn url_host(u: Seq<char>) -> Seq<char> {
    let rest = u.subrange(pat_index(u, "://"@) + 3, u.len() as int);
    rest.subrange(0, char_index(rest, '/'))
}

/// The source a URL or path denotes: empty or `.`/`/`-leading text is
/// local; a GitHub, GitLab or Gitee host names that forge; text without
/// `://`, or a URL whose host is exactly the Espressif registry host, is the
/// registry; any other URL is treated like GitHub.
pub open spec fn source_of(u: Seq<char>) -> SourceV {
    if u.len() == 0 || u[0] == '.' || u[0] == '/' {
        SourceV::Local(u)
    } else if contains_seq(u, "github.com"@) {
        SourceV::GitHub(u)
    } else if contains_seq(u, "gitlab.com"@) {
        SourceV::GitLab(u)
    } else if contains_seq(u, "gitee.com"@) {
        SourceV::Gitee(u)
    } else if !contains_seq(u, "://"@) || url_host(u) == "components.espressif.com"@ {
        SourceV::EspressifRegistry
    } else {
        SourceV::GitHub(u)
    }
}

/// Trusted without an allow-list entry.
pub open spec fn trusted_spec(s: SourceV) -> bool {
    s is EspressifRegistry || s is Local
}

/// The label of a source.
pub open spec fn label_spec(s: SourceV) -> Seq<char> {
    match s {
        SourceV::EspressifRegistry => "espressif_registry"@,
        SourceV::GitHub(_) => "github"@,
        SourceV::GitLab(_) => "gitlab"@,
        SourceV::Gitee(_) => "gitee"@,
        SourceV::Local(_) => "local"@,
    }
}

impl DependencySource {
    /// Parse a dependency source from a URL or path string.
    pub fn from_url(url: &str) -> (r: Self)
        ensures
            r@ == source_of(url@),
    {
        let u = chars_of(url);
        if u.len() == 0 || u[0] == '.' || u[0] == '/' {
            return DependencySource::Local(owned(url));
        }
        if contains_exec(&u, &chars_of("github.com")) {
            return DependencySource::GitHub(owned(url));
        }
        if contains_exec(&u, &chars_of("gitlab.com")) {
            return DependencySource::GitLab(owned(url));
        }
        if contains_exec(&u, &chars_of("gitee.com")) {
            return DependencySource::Gitee(owned(url));
        }
        let sep = chars_of("://");
        if !contains_exec(&u, &sep) {
            return DependencySource::EspressifRegistry;
        }
        proof {
            reveal_strlit("://");
            assert(u@.subrange(0, u@.len() as int) =~= u@);
            lemma_pat_index(u@, sep@);
        }
        let k = find_pat(&u, &sep, 0);
        let rest = slice_range(&u, k + 3, u.len());
        let slash = find_char(&rest, '/', 0);
        let host = slice_range(&rest, 0, slash);
        proof {
            assert(rest@.subrange(0, rest@.len() as int) =~= rest@);
            assert(host@ == url_host(u@));
        }
        if seq_eq(&host, &chars_of("components.espressif.com")) {
            return DependencySource::EspressifRegistry;
        }
        DependencySource::GitHub(owned(url))
    }

    /// Returns `true` if this source is trusted without any explicit allow.
    pub fn is_trusted_by_default(&self) -> (r: bool)
        ensures
            r == trusted_spec(self@),
    {
        match self {
            DependencySource::EspressifRegistry => true,
            DependencySource::Local(_) => true,
            _ => false,
        }
    }

    /// Human-readable source label.
    pub fn label(&self) -> (r: &'static str)
        ensures
            r@ == label_spec(self@),
    {
        match self {
            DependencySource::EspressifRegistry => "espressif_registry",
            DependencySource::GitHub(_) => "github",
            DependencySource::GitLab(_) => "gitlab",
            DependencySource::Gitee(_) => "gitee",
            DependencySource::Local(_) => "local",
        }
    }
}

/// Explicit allow-list for untrusted external sources.
#[derive(Debug)]
pub struct AllowList {
    /// URL prefixes that are explicitly allowed.
    pub allowed_prefixes: Vec<String>,
}

/// Some prefix in the list starts `url`.
pub open spec fn allowed_spec(prefixes: Seq<Seq<char>>, url: Seq<char>) -> bool {
    exists|i: int| 0 <= i < prefixes.len() && is_prefix(#[trigger] prefixes[i], url)
}

impl AllowList {
    /// An empty allow-list.
    pub fn new() -> (r: Self)
        ensures
            r.allowed_prefixes@.len() == 0,
    {
        AllowList { allowed_prefixes: Vec::new() }
    }

    /// Allow all URLs that start with `prefix`.
    pub fn allow_prefix(&mut self, prefix: &str)
        ensures
            strs_view(final(self).allowed_prefixes@) == strs_view(old(self).allowed_prefixes@).push(
                prefix@,
            ),
    {
        let ghost before = self.allowed_prefixes@;
        self.allowed_prefixes.push(owned(prefix));
        proof {
            assert(strs_view(self.allowed_prefixes@) =~= strs_view(before).push(prefix@));
        }
    }

    /// Returns `true` if `url` is covered by an explicit allow entry.
    pub fn is_allowed(&self, url: &str) -> (r: bool)
        ensures
            r == allowed_spec(strs_view(self.allowed_prefixes@), url@),
    {
        let u = chars_of(url);
        let ghost ps = strs_view(self.allowed_prefixes@);
        let mut i: usize = 0;
        while i < self.allowed_prefixes.len()
            invariant
                i <= self.allowed_prefixes@.len(),
                ps == strs_view(self.allowed_prefixes@),
                u@ == url@,
                forall|j: int| 0 <= j < i ==> !is_prefix(#[trigger] ps[j], url@),
            decreases self.allowed_prefixes@.len() - i,
        {
            let p = chars_of(self.allowed_prefixes[i].as_str());
            if starts_with(&u, &p) {
                proof {
                    assert(is_prefix(ps[i as int], url@));
                }
                return true;
            }
            i = i + 1;
        }
        false
    }
}

/// The diagnostics for one URL: none when trusted or allowed, else one error.
pub open spec fn url_check_spec(url: Seq<char>, path: Seq<char>, prefixes: Seq<Seq<char>>) -> Seq<
    DiagnosticView,
> {
    let s = source_of(url);
    if trusted_spec(s) || allowed_spec(prefixes, url) {
        Seq::empty()
    } else {
        seq![
            diag_hint(
                ValidationStage::ExternalComponents,
                Severity::Error,
                path,
                "untrusted external source '"@ + url + "' ("@ + label_spec(s)
                    + ") requires explicit allow-list entry"@,
                "Add the URL prefix to AllowList::allow_prefix() to permit it"@,
            ),
        ]
    }
}

/// Check one URL against the trust model, appending an error when it is
/// neither trusted by default nor allowed.
pub fn check_url(url: &str, path: &str, allow_list: &AllowList, errors: &mut Vec<ValidationError>)
    ensures
        diags(final(errors)@) == diags(old(errors)@) + url_check_spec(
            url@,
            path@,
            strs_view(allow_list.allowed_prefixes@),
        ),
{
    let source = DependencySource::from_url(url);
    if source.is_trusted_by_default() || allow_list.is_allowed(url) {
        proof {
            assert(diags(errors@) =~= diags(errors@) + Seq::<DiagnosticView>::empty());
        }
        return;
    }
    let mut msg = concat3("untrusted external source '", url, "' (");
    let tail = concat2(source.label(), ") requires explicit allow-list entry");
    crate::text::push_str(&mut msg, tail.as_str());
    proof {
        assert(msg@ =~= "untrusted external source '"@ + url@ + "' ("@ + label_spec(source@)
            + ") requires explicit allow-list entry"@);
    }
    let e = ValidationError::error(ValidationStage::ExternalComponents, path, msg.as_str())
        .with_suggestion("Add the URL prefix to AllowList::allow_prefix() to permit it");
    let ghost before = diags(errors@);
    errors.push(e);
    proof {
        assert(diags(errors@) =~= before.push(e@));
    }
}

/// The diagnostics for the git URLs of the first `n` IDF dependencies.
pub open spec fn framework_url_errors(
    cs: Seq<IdfComponentRef>,
    prefixes: Seq<Seq<char>>,
    n: int,
) -> Seq<DiagnosticView>
    decreases n,
{
    if n <= 0 || n > cs.len() {
        Seq::empty()
    } else {
        framework_url_errors(cs, prefixes, n - 1) + match cs[n - 1].git {
            Some(g) => url_check_spec(
                g@,
                index_path("esphome.framework.components"@, n - 1),
                prefixes,
            ),
            None => Seq::empty(),
        }
    }
}

/// The diagnostics for the `git` and `url` members of the first `n` components.
pub open spec fn component_url_errors(
    cs: Seq<ComponentView>,
    prefixes: Seq<Seq<char>>,
    n: int,
) -> Seq<DiagnosticView>
    decreases n,
{
    if n <= 0 || n > cs.len() {
        Seq::empty()
    } else {
        let p = index_path("components"@, n - 1);
        component_url_errors(cs, prefixes, n - 1) + match json_str(
            json_get(cs[n - 1].config, "git"@),
        ) {
            Some(g) => url_check_spec(g, p + ".git"@, prefixes),
            None => Seq::empty(),
        } + match json_str(json_get(cs[n - 1].config, "url"@)) {
            Some(u) => url_check_spec(u, p + ".url"@, prefixes),
            None => Seq::empty(),
        }
    }
}

fn index_label(base: &str, i: usize) -> (r: String)
    ensures
        r@ == index_path(base@, i as int),
{
    let ip = concat3("[", u64_to_decimal(i as u64).as_str(), "]");
    let p = concat2(base, ip.as_str());
    proof {
        reveal_strlit("[");
        reveal_strlit("]");
        assert(p@ =~= index_path(base@, i as int));
    }
    p
}

/// Stage 4: validate external component sources against the trust model:
/// the git URLs of the framework's IDF dependencies, then the `git` and
/// `url` members of each component's config.
pub fn stage_4_resolve_external_components(config: &RawConfig, allow_list: &AllowList) -> (errors:
    Vec<ValidationError>)
    ensures
        diags(errors@) == match config.esphome.framework {
            Some(fw) => framework_url_errors(
                fw.components@,
                strs_view(allow_list.allowed_prefixes@),
                fw.components@.len() as int,
            ),
            None => Seq::empty(),
        } + component_url_errors(
            comps_view(config.components@),
            strs_view(allow_list.allowed_prefixes@),
            config.components@.len() as int,
        ),
{
    let mut errors: Vec<ValidationError> = Vec::new();
    let ghost ps = strs_view(allow_list.allowed_prefixes@);
    if let Some(fw) = &config.esphome.framework {
        let mut i: usize = 0;
        while i < fw.components.len()
            invariant
                i <= fw.components@.len(),
                ps == strs_view(allow_list.allowed_prefixes@),
                diags(errors@) == framework_url_errors(fw.components@, ps, i as int),
            decreases fw.components@.len() - i,
        {
            let ghost before = diags(errors@);
            if let Some(g) = &fw.components[i].git {
                let p = index_label("esphome.framework.components", i);
                check_url(g.as_str(), p.as_str(), allow_list, &mut errors);
            } else {
                proof {
                    assert(diags(errors@) =~= before + Seq::<DiagnosticView>::empty());
                }
            }
            i = i + 1;
        }
    } else {
        proof {
            assert(diags(errors@) =~= Seq::<DiagnosticView>::empty());
        }
    }
    let ghost fw_errs = diags(errors@);
    let ghost cs = comps_view(config.components@);
    let mut i: usize = 0;
    proof {
        assert(fw_errs =~= fw_errs + component_url_errors(cs, ps, 0));
    }
    while i < config.components.len()
        invariant
            i <= config.components@.len(),
            ps == strs_view(allow_list.allowed_prefixes@),
            cs == comps_view(config.components@),
            diags(errors@) == fw_errs + component_url_errors(cs, ps, i as int),
        decreases config.components@.len() - i,
    {
        let ghost before = diags(errors@);
        let base = index_label("components", i);
        let cfg = &config.components[i].config;
        proof {
            assert(cs[i as int].config == cfg@);
        }
        match cfg.get("git") {
            Some(v) => match v.as_str() {
                Some(g) => {
                    let p = concat2(base.as_str(), ".git");
                    check_url(g, p.as_str(), allow_list, &mut errors);
                },
                None => {
                    proof {
                        assert(diags(errors@) =~= diags(errors@) + Seq::<DiagnosticView>::empty());
                    }
                },
            },
            None => {
                proof {
                    assert(diags(errors@) =~= diags(errors@) + Seq::<DiagnosticView>::empty());
                }
            },
        }
        let ghost mid = diags(errors@);
        match cfg.get("url") {
            Some(v) => match v.as_str() {
                Some(u) => {
                    let p = concat2(base.as_str(), ".url");
                    check_url(u, p.as_str(), allow_list, &mut errors);
                },
                None => {
                    proof {
                        assert(diags(errors@) =~= diags(errors@) + Seq::<DiagnosticView>::empty());
                    }
                },
            },
            None => {
                proof {
                    assert(diags(errors@) =~= diags(errors@) + Seq::<DiagnosticView>::empty());
                }
            },
        }
        proof {
            assert(diags(errors@) =~= fw_errs + component_url_errors(cs, ps, i + 1));
        }
        i = i + 1;
    }
    errors
}

} // verus!
