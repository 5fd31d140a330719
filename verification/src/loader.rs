//! Normalising the installation record.
//!
//! The caller reads the package manager's record and hands it over as plain
//! [`RecordEntry`] values, in whatever order the record yields them (the
//! record defines none). Each composite identifier is parsed; entries from
//! version-control sources are dropped, every other entry becomes a
//! [`Package`]. The first identifier that does not parse fails the whole
//! load: the record is machine-generated, so a bad identifier means a
//! corrupted record.

use vstd::prelude::*;

use crate::identifier::{parse, spec_parse, ParseError, ParsedIdentifierModel, SourceKind};
use crate::package::{
    clone_opt_string, clone_string_vec, InstallModel, Package, PackageModel, RecordEntry,
    RecordEntryModel,
};

verus! {

/// The package built from a parsed identifier and the entry's metadata.
pub open spec fn package_of(p: ParsedIdentifierModel, m: InstallModel) -> PackageModel {
    PackageModel {
        name: p.name,
        features: m.features,
        all_features: m.all_features,
        no_default_features: m.no_default_features,
        version: p.version,
        profile: m.profile,
        target: m.target,
        version_req: m.version_req,
        bins: m.bins,
        source_path: p.source_path,
    }
}

/// What `load` returns: the packages of the non-version-control entries in
/// record order, or the first entry's parse error.
pub open spec fn spec_load(entries: Seq<RecordEntryModel>) -> Result<
    Seq<PackageModel>,
    ParseError,
>
    decreases entries.len(),
{
    if entries.len() == 0 {
        Ok(Seq::empty())
    } else {
        match spec_load(entries.drop_last()) {
            Err(e) => Err(e),
            Ok(ps) => match spec_parse(entries.last().id) {
                Err(e) => Err(e),
                Ok(p) => if p.kind is VersionControl {
                    Ok(ps)
                } else {
                    Ok(ps.push(package_of(p, entries.last().install)))
                },
            },
        }
    }
}

/// An error in a prefix of the record decides the whole load.
proof fn lemma_load_err_prefix(entries: Seq<RecordEntryModel>, k: int, e: ParseError)
    requires
        0 <= k <= entries.len(),
        spec_load(entries.subrange(0, k)) == Err::<Seq<PackageModel>, ParseError>(e),
    ensures
        spec_load(entries) == Err::<Seq<PackageModel>, ParseError>(e),
    decreases entries.len() - k,
{
    if k == entries.len() {
        assert(entries.subrange(0, k) =~= entries);
    } else {
        let next = entries.subrange(0, k + 1);
        assert(next.drop_last() =~= entries.subrange(0, k));
        lemma_load_err_prefix(entries, k + 1, e);
    }
}

/// Normalise the record into the list of installed packages.
///
/// Succeeds exactly when every identifier parses; the packages are those of
/// the non-version-control entries, in record order, each merging the parsed
/// name, version and source path with the entry's metadata.
pub fn load(entries: &Vec<RecordEntry>) -> (r: Result<Vec<Package>, ParseError>)
    ensures
        r matches Ok(ps) ==> spec_load(entries.deep_view()) == Ok::<
            Seq<PackageModel>,
            ParseError,
        >(ps.deep_view()),
        r matches Err(e) ==> spec_load(entries.deep_view()) == Err::<
            Seq<PackageModel>,
            ParseError,
        >(e),
{
    let ghost em = entries.deep_view();
    let mut out: Vec<Package> = Vec::new();
    let mut k: usize = 0;
    proof {
        assert(em.subrange(0, 0) =~= Seq::<RecordEntryModel>::empty());
        assert(out.deep_view() =~= Seq::<PackageModel>::empty());
    }
    while k < entries.len()
        invariant
            k <= entries.len(),
            em == entries.deep_view(),
            em.len() == entries.len(),
            spec_load(em.subrange(0, k as int)) == Ok::<Seq<PackageModel>, ParseError>(
                out.deep_view(),
            ),
        decreases entries.len() - k,
    {
        proof {
            assert(em.subrange(0, (k + 1) as int).drop_last() =~= em.subrange(0, k as int));
            assert(em.subrange(0, (k + 1) as int).last() == em[k as int]);
            assert(em[k as int] == entries@[k as int]@);
        }
        let entry = &entries[k];
        match parse(entry.id.as_str()) {
            Err(e) => {
                proof {
                    lemma_load_err_prefix(em, k as int + 1, e);
                }
                return Err(e);
            },
            Ok(p) => {
                match p.kind {
                    SourceKind::VersionControl => {},
                    _ => {
                        let ghost old_out = out.deep_view();
                        let pkg = Package {
                            name: p.name,
                            features: clone_string_vec(&entry.install.features),
                            all_features: entry.install.all_features,
                            no_default_features: entry.install.no_default_features,
                            version: p.version,
                            profile: entry.install.profile.clone(),
                            target: clone_opt_string(&entry.install.target),
                            version_req: clone_opt_string(&entry.install.version_req),
                            bins: clone_string_vec(&entry.install.bins),
                            source_path: p.source_path,
                        };
                        proof {
                            assert(pkg@.features =~= em[k as int].install.features);
                            assert(pkg@.bins =~= em[k as int].install.bins);
                            assert(pkg@ == package_of(p@, em[k as int].install));
                        }
                        out.push(pkg);
                        proof {
                            assert(out.deep_view() =~= old_out.push(
                                package_of(p@, em[k as int].install),
                            ));
                        }
                    },
                }
            },
        }
        k = k + 1;
    }
    proof {
        assert(em.subrange(0, em.len() as int) =~= em);
    }
    Ok(out)
}

/// A version-control entry is excluded entirely: loading a record gives the
/// same result as loading the record without that entry.
pub proof fn lemma_load_excludes_vcs(entries: Seq<RecordEntryModel>, i: int)
    requires
        0 <= i < entries.len(),
        spec_parse(entries[i].id) matches Ok(p) && p.kind is VersionControl,
    ensures
        spec_load(entries) == spec_load(entries.remove(i)),
    decreases entries.len(),
{
    if i == entries.len() - 1 {
        assert(entries.remove(i) =~= entries.drop_last());
    } else {
        let s0 = entries.drop_last();
        assert(s0[i] == entries[i]);
        lemma_load_excludes_vcs(s0, i);
        assert(entries.remove(i).drop_last() =~= s0.remove(i));
        assert(entries.remove(i).last() == entries.last());
        assert(entries.remove(i).len() == entries.len() - 1);
    }
}

} // verus!
