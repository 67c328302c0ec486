//! The configuration of an application, as its package manifest holds it
//! under `package.metadata.rialight.application`.

use vstd::prelude::*;
use crate::string::scan::{belongs, is_alphanumeric, CharClass};
use crate::text::{chars_of, string_of};

verus! {

/// The root of the manifest.
#[derive(Clone, Debug)]
pub struct ApplicationRootConfig {
    pub package: ApplicationPackageConfig,
}

/// The table `package`.
#[derive(Clone, Debug)]
pub struct ApplicationPackageConfig {
    pub metadata: ApplicationPackageMetadataConfig,
}

/// The table `package.metadata`.
#[derive(Clone, Debug)]
pub struct ApplicationPackageMetadataConfig {
    pub rialight: ApplicationRialightConfig,
}

/// The table `package.metadata.rialight`.
#[derive(Clone, Debug)]
pub struct ApplicationRialightConfig {
    pub application: ApplicationConfig,
}

/// The table `package.metadata.rialight.application`.
#[derive(Clone, Debug)]
pub struct ApplicationConfig {
    pub id: String,
    pub title: String,
}

/// Why a configuration could not be read.
#[derive(Clone, Copy, PartialEq, Eq, Structural, Debug)]
pub enum ApplicationConfigError {
    /// There is no manifest.
    NotFound,
    /// The identifier of the application is not valid.
    InvalidId,
}

/// Whether `name` can be the identifier of an application: it holds a
/// letter or a digit of ASCII.
pub open spec fn is_id_valid_spec(name: Seq<char>) -> bool {
    exists|i: int| 0 <= i < name.len() && is_alphanumeric(#[trigger] name[i])
}

/// Whether `name` can be the identifier of an application.
pub fn is_id_valid(name: &str) -> (r: bool)
    ensures
        r == is_id_valid_spec(name@),
{
    let chars = chars_of(name);
    let mut i: usize = 0;
    while i < chars.len()
        invariant
            0 <= i <= chars.len(),
            chars@ == name@,
            forall|j: int| 0 <= j < i ==> !is_alphanumeric(#[trigger] name@[j]),
        decreases chars.len() - i,
    {
        if belongs(chars[i], CharClass::AlphaNumeric) {
            return true;
        }
        i += 1;
    }
    false
}

impl ApplicationConfig {
    /// What reading the manifest gives, where `found` is the configuration
    /// that the manifest holds, if there is a manifest: the configuration
    /// with its identifier and title, `NotFound` without a manifest, and
    /// `InvalidId` where the identifier is not valid.
    pub fn read(found: Option<ApplicationRootConfig>) -> (r: Result<
        ApplicationRootConfig,
        ApplicationConfigError,
    >)
        ensures
            match found {
                None => r == Err::<ApplicationRootConfig, ApplicationConfigError>(
                    ApplicationConfigError::NotFound,
                ),
                Some(root) => {
                    let application = root.package.metadata.rialight.application;
                    if is_id_valid_spec(application.id@) {
                        r is Ok && r->Ok_0.package.metadata.rialight.application.id@
                            == application.id@
                            && r->Ok_0.package.metadata.rialight.application.title@
                            == application.title@
                    } else {
                        r == Err::<ApplicationRootConfig, ApplicationConfigError>(
                            ApplicationConfigError::InvalidId,
                        )
                    }
                },
            },
    {
        match found {
            None => Err(ApplicationConfigError::NotFound),
            Some(root) => {
                let application = root.package.metadata.rialight.application;
                if !is_id_valid(application.id.as_str()) {
                    return Err(ApplicationConfigError::InvalidId);
                }
                Ok(
                    ApplicationRootConfig {
                        package: ApplicationPackageConfig {
                            metadata: ApplicationPackageMetadataConfig {
                                rialight: ApplicationRialightConfig {
                                    application: ApplicationConfig {
                                        id: string_of(&chars_of(application.id.as_str())),
                                        title: string_of(&chars_of(application.title.as_str())),
                                    },
                                },
                            },
                        },
                    },
                )
            },
        }
    }
}

} // verus!
