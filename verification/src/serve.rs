//! Options of the dev-server command that sits around the engine, and the
//! decisions it makes that are pure: which platform to serve, how the
//! command line amends the crate configuration, and which workspace package
//! a build targets. The command's file and network work stays outside the
//! library; it hands these functions plain values and takes plain values
//! back.

use vstd::prelude::*;

verus! {

/// A target platform the dev-server can serve.
#[derive(Clone, Copy, PartialEq, Eq, Structural, Debug)]
pub enum Platform {
    Web,
    Desktop,
    Fullstack,
}

/// The crate configuration fields the serve command may amend.
pub struct CrateConfig {
    pub hot_reload: bool,
    pub cross_origin_policy: bool,
    pub release: bool,
    pub verbose: bool,
    pub example: Option<String>,
    pub profile: Option<String>,
    pub features: Option<Vec<String>>,
    pub target: Option<String>,
    pub cargo_args: Vec<String>,
}

/// Run the project on the dev-server: the command's options.
pub struct Serve {
    pub port: u16,
    pub open: bool,
    pub skip_assets: bool,
    pub hot_reload: bool,
    pub cross_origin_policy: bool,
    pub release: bool,
    pub verbose: bool,
    pub example: Option<String>,
    pub profile: Option<String>,
    pub features: Option<Vec<String>>,
    pub target: Option<String>,
    pub cargo_args: Vec<String>,
    pub platform: Option<Platform>,
}

impl Serve {
    /// The platform to serve: the one named on the command line, or the
    /// application's default.
    pub fn resolve_platform(&self, default: Platform) -> (p: Platform)
        ensures
            p == if self.platform is Some {
                self.platform->0
            } else {
                default
            },
    {
        match self.platform {
            Some(p) => p,
            None => default,
        }
    }

    /// Amend a crate configuration with these options: the four flags are
    /// always taken from the command line; example, profile, features and
    /// target only where the command line names one; the cargo arguments
    /// are always replaced.
    pub fn apply(self, cfg: CrateConfig) -> (r: CrateConfig)
        ensures
            r.hot_reload == self.hot_reload,
            r.cross_origin_policy == self.cross_origin_policy,
            r.release == self.release,
            r.verbose == self.verbose,
            r.example == if self.example is Some {
                self.example
            } else {
                cfg.example
            },
            r.profile == if self.profile is Some {
                self.profile
            } else {
                cfg.profile
            },
            r.features == if self.features is Some {
                self.features
            } else {
                cfg.features
            },
            r.target == if self.target is Some {
                self.target
            } else {
                cfg.target
            },
            r.cargo_args == self.cargo_args,
    {
        let example = if self.example.is_some() {
            self.example
        } else {
            cfg.example
        };
        let profile = if self.profile.is_some() {
            self.profile
        } else {
            cfg.profile
        };
        let features = if self.features.is_some() {
            self.features
        } else {
            cfg.features
        };
        let target = if self.target.is_some() {
            self.target
        } else {
            cfg.target
        };
        CrateConfig {
            hot_reload: self.hot_reload,
            cross_origin_policy: self.cross_origin_policy,
            release: self.release,
            verbose: self.verbose,
            example,
            profile,
            features,
            target,
            cargo_args: self.cargo_args,
        }
    }
}

/// Which workspace package a build targets: the one named `want`, if any
/// package bears that name, else the workspace root package, if the
/// workspace has one. The name wins over the root; a name that matches no
/// package is an error even when a root exists.
pub fn pick_package(names: &Vec<String>, want: &Option<String>, root: Option<usize>) -> (r: Result<
    usize,
    PickError,
>)
    requires
        root matches Some(k) ==> 0 <= k < names@.len(),
    ensures
        match r {
            Ok(k) => 0 <= k < names@.len() && (match want {
                Some(w) => names@[k as int]@ == w@ && (forall|j: int|
                    0 <= j < k ==> names@[j]@ != w@),
                None => root == Some(k),
            }),
            Err(PickError::NoSuchPackage) => want matches Some(w) && forall|j: int|
                0 <= j < names@.len() ==> (#[trigger] names@[j]@) != w@,
            Err(PickError::NoRootPackage) => want is None && root is None,
        },
{
    match want {
        Some(w) => {
            let mut i: usize = 0;
            while i < names.len()
                invariant
                    0 <= i <= names@.len(),
                    *want == Some(*w),
                    forall|j: int| 0 <= j < i ==> (#[trigger] names@[j]@) != w@,
                decreases names@.len() - i,
            {
                if names[i] == *w {
                    return Ok(i);
                }
                i = i + 1;
            }
            Err(PickError::NoSuchPackage)
        },
        None => {
            match root {
                Some(k) => Ok(k),
                None => Err(PickError::NoRootPackage),
            }
        },
    }
}

/// Why no package could be picked.
#[derive(Clone, Copy, PartialEq, Eq, Structural, Debug)]
pub enum PickError {
    /// A package was named, and no workspace package bears that name.
    NoSuchPackage,
    /// No package was named, and the workspace has no root package.
    NoRootPackage,
}

} // verus!
