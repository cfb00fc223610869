use vstd::prelude::*;

verus! {

/// The byte that separates path components.
pub open spec fn slash() -> u8 {
    47u8
}

/// `base` with the relative component `rel` pushed onto it, as
/// `PathBuf::push` does: a separator is put between the two unless `base`
/// is empty or already ends with one.
pub open spec fn joined(base: Seq<u8>, rel: Seq<u8>) -> Seq<u8> {
    if base.len() == 0 || base.last() == slash() {
        base + rel
    } else {
        base.push(slash()) + rel
    }
}

/// Appends all of `bytes` to `out`.
pub fn extend_bytes(out: &mut Vec<u8>, bytes: &[u8])
    ensures
        final(out)@ == old(out)@ + bytes@,
{
    let mut i: usize = 0;
    while i < bytes.len()
        invariant
            i <= bytes@.len(),
            out@ == old(out)@ + bytes@.take(i as int),
        decreases bytes@.len() - i,
    {
        out.push(bytes[i]);
        i = i + 1;
        assert(bytes@.take(i as int) == bytes@.take(i - 1).push(bytes@[i - 1]));
    }
    assert(bytes@.take(bytes@.len() as int) == bytes@);
}

/// Pushes the relative component `rel` onto `base`.
pub fn join_path(base: &[u8], rel: &[u8]) -> (path: Vec<u8>)
    ensures
        path@ == joined(base@, rel@),
{
    let mut path: Vec<u8> = Vec::new();
    extend_bytes(&mut path, base);
    assert(path@ == base@);
    if base.len() > 0 && base[base.len() - 1] != 47u8 {
        path.push(47u8);
    }
    extend_bytes(&mut path, rel);
    path
}

/// The name of the store directory inside the data directory: `store`.
pub open spec fn store_component() -> Seq<u8> {
    seq![115u8, 116u8, 111u8, 114u8, 101u8]
}

/// The name of the key file inside the config directory: `key.txt`.
pub open spec fn key_file_component() -> Seq<u8> {
    seq![107u8, 101u8, 121u8, 46u8, 116u8, 120u8, 116u8]
}

#[verifier::external_type_specification]
#[verifier::external_body]
pub struct ExProjectDirs(directories::ProjectDirs);

/// Calls `directories::ProjectDirs::from`.  Nothing is promised of the
/// result: it depends on the environment (the home directory and the XDG
/// variables).
#[verifier::external_body]
fn project_dirs_from(qualifier: &str, organization: &str, application: &str) -> Option<
    directories::ProjectDirs,
> {
    directories::ProjectDirs::from(qualifier, organization, application)
}

/// Calls `ProjectDirs::data_dir` and hands back the path's bytes.  Nothing is
/// promised of them: they come from the environment.
#[verifier::external_body]
fn data_dir_of(dirs: &directories::ProjectDirs) -> Vec<u8> {
    dirs.data_dir().as_os_str().as_encoded_bytes().to_vec()
}

/// Calls `ProjectDirs::config_dir` and hands back the path's bytes.  Nothing
/// is promised of them: they come from the environment.
#[verifier::external_body]
fn config_dir_of(dirs: &directories::ProjectDirs) -> Vec<u8> {
    dirs.config_dir().as_os_str().as_encoded_bytes().to_vec()
}

/// Why the store's directories could not be found.
#[derive(Debug)]
pub enum PathsError {
    /// No home directory could be determined.
    NoHomeDirectory,
}

/// The project directories of `pw`.
pub fn project_dirs() -> (r: Result<directories::ProjectDirs, PathsError>)
    ensures
        r matches Err(e) ==> e is NoHomeDirectory,
{
    match project_dirs_from("", "", "pw") {
        Some(dirs) => Ok(dirs),
        None => Err(PathsError::NoHomeDirectory),
    }
}

/// The store directory inside the data directory `data_dir`.
pub fn store_dir_in(data_dir: &[u8]) -> (dir: Vec<u8>)
    ensures
        dir@ == joined(data_dir@, store_component()),
{
    let component: Vec<u8> = vec![115u8, 116u8, 111u8, 114u8, 101u8];
    assert(component@ == store_component());
    join_path(data_dir, component.as_slice())
}

/// The key file inside the config directory `config_dir`.
pub fn identity_path_in(config_dir: &[u8]) -> (path: Vec<u8>)
    ensures
        path@ == joined(config_dir@, key_file_component()),
{
    let component: Vec<u8> = vec![107u8, 101u8, 121u8, 46u8, 116u8, 120u8, 116u8];
    assert(component@ == key_file_component());
    join_path(config_dir, component.as_slice())
}

/// The directory that holds the entries: `store` inside the project's data
/// directory.
pub fn store_dir() -> (r: Result<Vec<u8>, PathsError>)
    ensures
        r matches Ok(dir) ==> exists|data: Seq<u8>| dir@ == joined(data, store_component()),
        r matches Err(e) ==> e is NoHomeDirectory,
{
    let dirs = project_dirs()?;
    let data = data_dir_of(&dirs);
    let dir = store_dir_in(data.as_slice());
    assert(dir@ == joined(data@, store_component()));
    Ok(dir)
}

/// The key file: `key.txt` inside the project's config directory.
pub fn identity_path() -> (r: Result<Vec<u8>, PathsError>)
    ensures
        r matches Ok(path) ==> exists|config: Seq<u8>| path@ == joined(config, key_file_component()),
        r matches Err(e) ==> e is NoHomeDirectory,
{
    let dirs = project_dirs()?;
    let config = config_dir_of(&dirs);
    let path = identity_path_in(config.as_slice());
    assert(path@ == joined(config@, key_file_component()));
    Ok(path)
}

} // verus!
