//! The services that a node runs, by name.

use vstd::prelude::*;
use vstd::string::StringExecFns;

verus! {

/// The services of the node.
#[derive(Clone, Copy, Debug, PartialEq, Eq, Structural)]
pub enum ServiceName {
    Asset,
    Metadata,
    Dex,
}

/// Why no service was found.
#[derive(Debug, PartialEq, Eq)]
pub enum MappingError {
    NotFoundService { service: String },
}

/// The service that a name stands for.
pub open spec fn service_named(name: Seq<char>) -> Option<ServiceName> {
    if name == "asset"@ {
        Some(ServiceName::Asset)
    } else if name == "metadata"@ {
        Some(ServiceName::Metadata)
    } else if name == "dex"@ {
        Some(ServiceName::Dex)
    } else {
        None
    }
}

/// Whether two texts are the same.
fn same_text(a: &str, b: &str) -> (same: bool)
    ensures
        same == (a@ == b@),
{
    let x = String::from_str(a);
    let y = String::from_str(b);
    x == y
}

/// Finds the service of a name: `asset`, `metadata` or `dex`.
pub fn get_service(name: &str) -> (res: Result<ServiceName, MappingError>)
    ensures
        match res {
            Ok(s) => service_named(name@) == Some(s),
            Err(MappingError::NotFoundService { service }) => service_named(name@) is None && service@
                == name@,
        },
{
    if same_text(name, "asset") {
        Ok(ServiceName::Asset)
    } else if same_text(name, "metadata") {
        Ok(ServiceName::Metadata)
    } else if same_text(name, "dex") {
        Ok(ServiceName::Dex)
    } else {
        Err(MappingError::NotFoundService { service: String::from_str(name) })
    }
}

/// The names of the services, in the order in which the node starts them.
pub fn list_service_name() -> (names: Vec<String>)
    ensures
        names@.len() == 3,
        names@[0]@ == "asset"@,
        names@[1]@ == "metadata"@,
        names@[2]@ == "dex"@,
{
    let mut names: Vec<String> = Vec::new();
    names.push(String::from_str("asset"));
    names.push(String::from_str("metadata"));
    names.push(String::from_str("dex"));
    names
}

} // verus!
