use vstd::prelude::*;

verus! {

/// How a registry lookup fails, as this library sees it: the name is not
/// published, or anything else, carrying a description of what went wrong.
#[derive(Debug, PartialEq, Eq)]
pub enum RegistryError {
    NotFound,
    Other(String),
}

/// Declares crates_io_api::SyncClient, the registry client handle, so that
/// it can be passed through; nothing inside it is visible here.
#[verifier::external_type_specification]
#[verifier::external_body]
pub struct ExSyncClient(crates_io_api::SyncClient);

/// Relies on crates_io_api::SyncClient::get_crate: it asks the registry over
/// the network and answers with the crate's versions, newest first, or with a
/// crates_io_api::Error. The first listed version, if any, comes back here;
/// crates_io_api::Error::NotFound becomes RegistryError::NotFound and every
/// other error becomes RegistryError::Other with its rendered description.
/// The answer depends on the network, so nothing is stated about it.
#[verifier::external_body]
fn query_latest(client: &crates_io_api::SyncClient, name: &str) -> Result<
    Option<String>,
    RegistryError,
> {
    match client.get_crate(name) {
        Ok(resp) => Ok(resp.versions.into_iter().next().map(|v| v.num)),
        Err(crates_io_api::Error::NotFound(_)) => Err(RegistryError::NotFound),
        Err(e) => Err(RegistryError::Other(format!("{}", e))),
    }
}

/// Turn a raw registry answer into the library's result: a usable version
/// passes through, an answer with no versions or with an empty version
/// string becomes an error, and a failure stays what it was.
pub fn resolve(q: Result<Option<String>, RegistryError>) -> (r: Result<String, RegistryError>)
    ensures
        q is Ok && q->Ok_0 is Some && (q->Ok_0->0)@.len() > 0 ==> r == Ok::<
            String,
            RegistryError,
        >(q->Ok_0->0),
        q is Ok && q->Ok_0 is Some && (q->Ok_0->0)@.len() == 0 ==> r is Err && r->Err_0 is Other
            && (r->Err_0->Other_0)@ == "empty version string"@,
        q is Ok && q->Ok_0 is None ==> r is Err && r->Err_0 is Other && (r->Err_0->Other_0)@
            == "no published versions"@,
        q is Err ==> r == Err::<String, RegistryError>(q->Err_0),
        r is Ok ==> (r->Ok_0)@.len() > 0,
{
    match q {
        Ok(Some(version)) => {
            if version.as_str().is_empty() {
                Err(RegistryError::Other(("empty version string").to_owned()))
            } else {
                Ok(version)
            }
        },
        Ok(None) => Err(RegistryError::Other(("no published versions").to_owned())),
        Err(e) => Err(e),
    }
}

/// The latest published version of the named package, as the registry
/// reports it. The answer comes over the network, so no clause relates it
/// to the arguments; what is owed of every outcome is that a success is a
/// non-empty version string — `resolve` says exactly how the raw answer
/// becomes this result.
pub fn latest_version(client: &crates_io_api::SyncClient, name: &str) -> (r: Result<
    String,
    RegistryError,
>)
    ensures
        r is Ok ==> (r->Ok_0)@.len() > 0,
{
    resolve(query_latest(client, name))
}

} // verus!
