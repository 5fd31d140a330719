//! The normalised package model.
//!
//! [`Package`] is the descriptor shared by the desired and the actual state;
//! [`Install`] carries the per-install metadata of one installation-record
//! entry, and [`RecordEntry`] pairs it with the entry's composite identifier.
//! Each type has a ghost model over sequences, reached through its view.

use vstd::prelude::*;

use crate::version::Version;

verus! {

/// The ghost model of a [`Package`]: every text as a sequence of characters.
pub ghost struct PackageModel {
    pub name: Seq<char>,
    pub features: Seq<Seq<char>>,
    pub all_features: bool,
    pub no_default_features: bool,
    pub version: Seq<char>,
    pub profile: Seq<char>,
    pub target: Option<Seq<char>>,
    pub version_req: Option<Seq<char>>,
    pub bins: Seq<Seq<char>>,
    pub source_path: Option<Seq<char>>,
}

/// The normalised representation of one package, for both the desired and
/// the actual state.
///
/// Within one state list the `name` is the unique key. `source_path` is
/// present only for packages installed from a local directory.
#[derive(Debug)]
pub struct Package {
    pub name: String,
    pub features: Vec<String>,
    pub all_features: bool,
    pub no_default_features: bool,
    pub version: Version,
    pub profile: String,
    pub target: Option<String>,
    pub version_req: Option<String>,
    pub bins: Vec<String>,
    pub source_path: Option<String>,
}

impl View for Package {
    type V = PackageModel;

    open spec fn view(&self) -> PackageModel {
        PackageModel {
            name: self.name@,
            features: self.features.deep_view(),
            all_features: self.all_features,
            no_default_features: self.no_default_features,
            version: self.version@,
            profile: self.profile@,
            target: self.target.deep_view(),
            version_req: self.version_req.deep_view(),
            bins: self.bins.deep_view(),
            source_path: self.source_path.deep_view(),
        }
    }
}

impl DeepView for Package {
    type V = PackageModel;

    open spec fn deep_view(&self) -> PackageModel {
        self.view()
    }
}

/// Clone a vector of strings, keeping every element.
pub fn clone_string_vec(v: &Vec<String>) -> (r: Vec<String>)
    ensures
        r@ == v@,
{
    let mut r: Vec<String> = Vec::new();
    let mut k: usize = 0;
    while k < v.len()
        invariant
            k <= v.len(),
            r@ == v@.subrange(0, k as int),
        decreases v.len() - k,
    {
        r.push(v[k].clone());
        proof {
            assert(v@.subrange(0, (k + 1) as int) =~= v@.subrange(0, k as int).push(v@[k as int]));
        }
        k = k + 1;
    }
    proof {
        assert(v@.subrange(0, v@.len() as int) =~= v@);
    }
    r
}

/// Clone an optional string, keeping the value.
pub fn clone_opt_string(v: &Option<String>) -> (r: Option<String>)
    ensures
        r == *v,
{
    match v {
        Some(s) => Some(s.clone()),
        None => None,
    }
}

impl Clone for Package {
    /// Cloning keeps the whole descriptor.
    fn clone(&self) -> (r: Self)
        ensures
            r@ == self@,
    {
        let r = Package {
            name: self.name.clone(),
            features: clone_string_vec(&self.features),
            all_features: self.all_features,
            no_default_features: self.no_default_features,
            version: self.version.clone(),
            profile: self.profile.clone(),
            target: clone_opt_string(&self.target),
            version_req: clone_opt_string(&self.version_req),
            bins: clone_string_vec(&self.bins),
            source_path: clone_opt_string(&self.source_path),
        };
        proof {
            assert(r.features.deep_view() =~= self.features.deep_view());
            assert(r.bins.deep_view() =~= self.bins.deep_view());
        }
        r
    }
}

/// The ghost model of an [`Install`].
pub ghost struct InstallModel {
    pub features: Seq<Seq<char>>,
    pub no_default_features: bool,
    pub all_features: bool,
    pub profile: Seq<char>,
    pub target: Option<Seq<char>>,
    pub version_req: Option<Seq<char>>,
    pub bins: Seq<Seq<char>>,
}

/// The per-install metadata of one installation-record entry: everything the
/// record knows about an installed package besides its composite identifier.
#[derive(Debug)]
pub struct Install {
    pub features: Vec<String>,
    pub no_default_features: bool,
    pub all_features: bool,
    pub profile: String,
    pub target: Option<String>,
    pub version_req: Option<String>,
    pub bins: Vec<String>,
}

impl View for Install {
    type V = InstallModel;

    open spec fn view(&self) -> InstallModel {
        InstallModel {
            features: self.features.deep_view(),
            no_default_features: self.no_default_features,
            all_features: self.all_features,
            profile: self.profile@,
            target: self.target.deep_view(),
            version_req: self.version_req.deep_view(),
            bins: self.bins.deep_view(),
        }
    }
}

impl DeepView for Install {
    type V = InstallModel;

    open spec fn deep_view(&self) -> InstallModel {
        self.view()
    }
}

/// The ghost model of a [`RecordEntry`].
pub ghost struct RecordEntryModel {
    pub id: Seq<char>,
    pub install: InstallModel,
}

/// One entry of the installation record: the composite identifier and the
/// metadata stored under it.
#[derive(Debug)]
pub struct RecordEntry {
    pub id: String,
    pub install: Install,
}

impl View for RecordEntry {
    type V = RecordEntryModel;

    open spec fn view(&self) -> RecordEntryModel {
        RecordEntryModel { id: self.id@, install: self.install@ }
    }
}

impl DeepView for RecordEntry {
    type V = RecordEntryModel;

    open spec fn deep_view(&self) -> RecordEntryModel {
        self.view()
    }
}

/// The outcome of reconciliation: the three action lists that bring the
/// actual state in line with the desired state. A package absent from all
/// three is already in sync.
#[derive(Debug)]
pub struct ActionSet {
    pub to_install: Vec<Package>,
    pub to_update: Vec<Package>,
    pub to_remove: Vec<Package>,
}

/// The ghost model of an [`ActionSet`].
pub ghost struct ActionSetModel {
    pub to_install: Seq<PackageModel>,
    pub to_update: Seq<PackageModel>,
    pub to_remove: Seq<PackageModel>,
}

impl View for ActionSet {
    type V = ActionSetModel;

    open spec fn view(&self) -> ActionSetModel {
        ActionSetModel {
            to_install: self.to_install.deep_view(),
            to_update: self.to_update.deep_view(),
            to_remove: self.to_remove.deep_view(),
        }
    }
}

} // verus!
