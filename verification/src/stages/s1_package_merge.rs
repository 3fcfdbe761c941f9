//! Stage 1 — package merge.
//!
//! Every `PackageRef` listed in the config is looked up in the
//! `PackageStore`; the package's components are appended to the main list and
//! its substitutions are added, without overriding the user's own.
use vstd::prelude::*;
use crate::error::{ValidationError, ValidationStage, Severity, DiagnosticView, diag, diags};
use crate::raw::{
    RawConfig, PackageRef, PackageStore, ComponentView, comps_view, pairs_lookup, store_get,
    lemma_store_index,
};
use crate::text::{concat2, concat3, concat5};

verus! {

/// The diagnostic for a package that the store does not hold.
pub open spec fn missing_package_diag(p: PackageRef) -> DiagnosticView {
    diag(
        ValidationStage::PackageMerge,
        Severity::Error,
        "packages."@ + p.name@,
        match p.url {
            Some(u) => "package '"@ + p.name@ + "' from '"@ + u@ + "' not found in package store"@,
            None => "package '"@ + p.name@ + "' not found in package store"@,
        },
    )
}

/// One diagnostic per listed package that is missing, in list order.
pub open spec fn merge_errors(store: Seq<(String, RawConfig)>, pkgs: Seq<PackageRef>) -> Seq<
    DiagnosticView,
>
    decreases pkgs.len(),
{
    if pkgs.len() == 0 {
        Seq::empty()
    } else {
        let prev = merge_errors(store, pkgs.drop_last());
        if store_get(store, pkgs.last().name@) is None {
            prev.push(missing_package_diag(pkgs.last()))
        } else {
            prev
        }
    }
}

/// The components of the listed packages that are found, in list order.
pub open spec fn merged_components(store: Seq<(String, RawConfig)>, pkgs: Seq<PackageRef>) -> Seq<
    ComponentView,
>
    decreases pkgs.len(),
{
    if pkgs.len() == 0 {
        Seq::empty()
    } else {
        let prev = merged_components(store, pkgs.drop_last());
        match store_get(store, pkgs.last().name@) {
            Some(c) => prev + comps_view(c.components@),
            None => prev,
        }
    }
}

/// `s` with each entry of `extra` appended whose key is not yet present.
pub open spec fn add_absent(
    s: Seq<(Seq<char>, Seq<char>)>,
    extra: Seq<(Seq<char>, Seq<char>)>,
) -> Seq<(Seq<char>, Seq<char>)>
    decreases extra.len(),
{
    if extra.len() == 0 {
        s
    } else {
        let prev = add_absent(s, extra.drop_last());
        if pairs_lookup(prev, extra.last().0) is Some {
            prev
        } else {
            prev.push(extra.last())
        }
    }
}

/// The substitutions after adding those of every found package, in list order.
pub open spec fn merged_substitutions(
    store: Seq<(String, RawConfig)>,
    pkgs: Seq<PackageRef>,
    base: Seq<(Seq<char>, Seq<char>)>,
) -> Seq<(Seq<char>, Seq<char>)>
    decreases pkgs.len(),
{
    if pkgs.len() == 0 {
        base
    } else {
        let prev = merged_substitutions(store, pkgs.drop_last(), base);
        match store_get(store, pkgs.last().name@) {
            Some(c) => add_absent(prev, c.substitutions@),
            None => prev,
        }
    }
}

/// Appending an entry leaves the lookup of every key already present unchanged.
pub proof fn lemma_pairs_lookup_push(
    s: Seq<(Seq<char>, Seq<char>)>,
    e: (Seq<char>, Seq<char>),
    q: Seq<char>,
)
    ensures
        pairs_lookup(s.push(e), q) == if pairs_lookup(s, q) is Some {
            pairs_lookup(s, q)
        } else if e.0 == q {
            Some(e.1)
        } else {
            None::<Seq<char>>
        },
    decreases s.len(),
{
    if s.len() > 0 {
        assert(s.push(e)[0] == s[0]);
        assert(s.push(e).drop_first() =~= s.drop_first().push(e));
        lemma_pairs_lookup_push(s.drop_first(), e, q);
    } else {
        assert(s.push(e)[0] == e);
        assert(s.push(e).drop_first() =~= Seq::<(Seq<char>, Seq<char>)>::empty());
        assert(pairs_lookup(s.push(e).drop_first(), q) is None);
    }
}

/// `add_absent` keeps the value of every key already present.
pub proof fn lemma_add_absent_keeps(
    s: Seq<(Seq<char>, Seq<char>)>,
    extra: Seq<(Seq<char>, Seq<char>)>,
    q: Seq<char>,
)
    requires
        pairs_lookup(s, q) is Some,
    ensures
        pairs_lookup(add_absent(s, extra), q) == pairs_lookup(s, q),
    decreases extra.len(),
{
    if extra.len() > 0 {
        lemma_add_absent_keeps(s, extra.drop_last(), q);
        let prev = add_absent(s, extra.drop_last());
        lemma_pairs_lookup_push(prev, extra.last(), q);
    }
}

/// Merging packages never overrides a substitution that was already defined.
pub proof fn lemma_merged_substitutions_keep(
    store: Seq<(String, RawConfig)>,
    pkgs: Seq<PackageRef>,
    base: Seq<(Seq<char>, Seq<char>)>,
    q: Seq<char>,
)
    requires
        pairs_lookup(base, q) is Some,
    ensures
        pairs_lookup(merged_substitutions(store, pkgs, base), q) == pairs_lookup(base, q),
    decreases pkgs.len(),
{
    if pkgs.len() > 0 {
        lemma_merged_substitutions_keep(store, pkgs.drop_last(), base, q);
        let prev = merged_substitutions(store, pkgs.drop_last(), base);
        match store_get(store, pkgs.last().name@) {
            Some(c) => lemma_add_absent_keeps(prev, c.substitutions@, q),
            None => {},
        }
    }
}

fn missing_package_error(p: &PackageRef) -> (e: ValidationError)
    ensures
        e@ == missing_package_diag(*p),
{
    let path = concat2("packages.", p.name.as_str());
    let msg = match &p.url {
        Some(url) => concat5(
            "package '",
            p.name.as_str(),
            "' from '",
            url.as_str(),
            "' not found in package store",
        ),
        None => concat3("package '", p.name.as_str(), "' not found in package store"),
    };
    ValidationError::error(ValidationStage::PackageMerge, path.as_str(), msg.as_str())
}

/// Stage 1: merge the referenced packages into `config`.
///
/// Each package that the store lacks yields one error; each package found
/// appends its components after the current ones and adds those of its
/// substitutions whose keys are not defined yet.
pub fn stage_1_merge_packages(config: &mut RawConfig, store: &PackageStore) -> (errors: Vec<
    ValidationError,
>)
    ensures
        diags(errors@) == merge_errors(store.packages@, old(config).packages@),
        comps_view(final(config).components@) == comps_view(old(config).components@)
            + merged_components(store.packages@, old(config).packages@),
        final(config).substitutions@ == merged_substitutions(
            store.packages@,
            old(config).packages@,
            old(config).substitutions@,
        ),
        final(config).esphome == old(config).esphome,
        final(config).packages == old(config).packages,
        forall|q: Seq<char>|
            pairs_lookup(old(config).substitutions@, q) is Some ==> pairs_lookup(
                final(config).substitutions@,
                q,
            ) == pairs_lookup(old(config).substitutions@, q),
{
    let mut errors: Vec<ValidationError> = Vec::new();
    let ghost pkgs = config.packages@;
    let ghost base_comps = comps_view(config.components@);
    let ghost base_subs = config.substitutions@;
    let ghost old_config = *config;
    let n = config.packages.len();
    let mut i: usize = 0;
    while i < n
        invariant
            n == pkgs.len(),
            i <= n,
            config.packages@ == pkgs,
            config.esphome == old_config.esphome,
            config.packages == old_config.packages,
            diags(errors@) == merge_errors(store.packages@, pkgs.subrange(0, i as int)),
            comps_view(config.components@) == base_comps + merged_components(
                store.packages@,
                pkgs.subrange(0, i as int),
            ),
            config.substitutions@ == merged_substitutions(
                store.packages@,
                pkgs.subrange(0, i as int),
                base_subs,
            ),
        decreases n - i,
    {
        let ghost pre = pkgs.subrange(0, i as int);
        let ghost cur = pkgs.subrange(0, i + 1);
        proof {
            assert(cur.drop_last() =~= pre);
            assert(cur.last() == pkgs[i as int]);
        }
        match store.get(config.packages[i].name.as_str()) {
            None => {
                let e = missing_package_error(&config.packages[i]);
                let ghost before = errors@;
                errors.push(e);
                proof {
                    assert(diags(errors@) =~= diags(before).push(e@));
                }
            },
            Some(pkg) => {
                let ghost comps_before = comps_view(config.components@);
                let ghost subs_at = config.substitutions@;
                let ghost errs_at = diags(errors@);
                let m = pkg.components.len();
                let mut j: usize = 0;
                while j < m
                    invariant
                        m == pkg.components@.len(),
                        j <= m,
                        config.packages@ == pkgs,
                        config.esphome == old_config.esphome,
                        config.packages == old_config.packages,
                        comps_view(config.components@) == comps_before + comps_view(
                            pkg.components@.subrange(0, j as int),
                        ),
                        config.substitutions@ == subs_at,
                    decreases m - j,
                {
                    let c = pkg.components[j].copy();
                    let ghost cs = config.components@;
                    config.components.push(c);
                    proof {
                        assert(config.components@ == cs.push(c));
                        assert(comps_view(config.components@) =~= comps_view(cs).push(c@));
                        assert(pkg.components@.subrange(0, j + 1) =~= pkg.components@.subrange(0, j as int).push(pkg.components@[j as int]));
                        assert(comps_view(pkg.components@.subrange(0, j + 1)) =~= comps_view(pkg.components@.subrange(0, j as int)).push(pkg.components@[j as int]@));
                    }
                    j = j + 1;
                }
                proof {
                    assert(pkg.components@.subrange(0, m as int) =~= pkg.components@);
                }
                let ghost subs_before = config.substitutions@;
                let ghost extra = pkg.substitutions@;
                let k = pkg.substitutions.entries.len();
                let mut j: usize = 0;
                while j < k
                    invariant
                        k == pkg.substitutions.entries@.len(),
                        extra == pkg.substitutions@,
                        j <= k,
                        config.packages@ == pkgs,
                        config.esphome == old_config.esphome,
                        config.packages == old_config.packages,
                        comps_view(config.components@) == comps_before + comps_view(
                            pkg.components@,
                        ),
                        config.substitutions@ == add_absent(
                            subs_before,
                            extra.subrange(0, j as int),
                        ),
                    decreases k - j,
                {
                    let ghost sub = extra.subrange(0, j + 1);
                    proof {
                        assert(sub.drop_last() =~= extra.subrange(0, j as int));
                        assert(sub.last() == extra[j as int]);
                    }
                    let key = pkg.substitutions.entries[j].0.as_str();
                    if !config.substitutions.contains_key(key) {
                        config.substitutions.insert(key, pkg.substitutions.entries[j].1.as_str());
                        proof {
                            lemma_absent_insert_is_push(
                                add_absent(subs_before, extra.subrange(0, j as int)),
                                extra[j as int],
                            );
                        }
                    }
                    j = j + 1;
                }
                proof {
                    assert(extra.subrange(0, k as int) =~= extra);
                }
            },
        }
        i = i + 1;
    }
    proof {
        assert(pkgs.subrange(0, n as int) =~= pkgs);
        assert forall|q: Seq<char>| pairs_lookup(old_config.substitutions@, q) is Some implies pairs_lookup(
            config.substitutions@,
            q,
        ) == pairs_lookup(old_config.substitutions@, q) by {
            lemma_merged_substitutions_keep(store.packages@, pkgs, base_subs, q);
        }
    }
    errors
}

/// Inserting a key that is absent appends it.
pub proof fn lemma_absent_insert_is_push(s: Seq<(Seq<char>, Seq<char>)>, e: (Seq<char>, Seq<char>))
    requires
        pairs_lookup(s, e.0) is None,
    ensures
        crate::raw::pairs_insert(s, e.0, e.1) == s.push(e),
{
    crate::raw::lemma_pairs_index(s, e.0);
}

} // verus!
