use vstd::prelude::*;
use crate::text::{chars_of, find_last, find_last_char, last_segment, string_from_chars};

verus! {

/// What is stored about one installed extension.
#[derive(Debug, Clone)]
pub struct ExtensionMetadata {
    /// Identifier, also the directory name the extension lives under.
    pub id: String,
    /// Display name.
    pub name: String,
    /// Version string.
    pub version: String,
    /// When it was installed, as the caller renders time.
    pub installed_at: String,
    /// Whether it is active.
    pub enabled: bool,
}

/// Where an extension archive comes from and how it is checked.
#[derive(Debug, Clone)]
pub struct DownloadInfo {
    /// Where the archive is fetched from.
    pub url: String,
    /// The announced lowercase hex SHA-256 digest of the archive bytes.
    pub checksum: String,
    /// The announced size in bytes; advisory, the checksum decides.
    pub size: u64,
}

/// The stages an install passes through.
#[derive(Debug, Clone)]
pub enum InstallStatus {
    Downloading,
    Extracting,
    Verifying,
    Installing,
    Completed,
    Failed { error: String },
}

/// The lowercase hexadecimal SHA-256 digest of a byte string: a function
/// of the bytes alone.
pub uninterp spec fn sha256_hex_of(b: Seq<u8>) -> Seq<char>;

/// Relies on sha256::digest: the lowercase hex SHA-256 digest of the
/// input bytes, which depends on the bytes alone.
#[verifier::external_body]
fn sha256_hex(data: &Vec<u8>) -> (r: String)
    ensures
        r@ == sha256_hex_of(data@),
{
    sha256::digest(data)
}

/// Whether downloaded bytes carry the announced checksum.
pub fn checksum_matches(data: &Vec<u8>, expected: &String) -> (r: bool)
    ensures
        r == (sha256_hex_of(data@) == expected@),
{
    let digest = sha256_hex(data);
    digest.eq(expected)
}

/// Check a downloaded archive against its announcement: it is accepted
/// exactly when its bytes carry the announced checksum; a rejection names
/// both digests.
pub fn verify_download(data: &Vec<u8>, info: &DownloadInfo) -> (r: Result<(), String>)
    ensures
        r is Ok <==> sha256_hex_of(data@) == info.checksum@,
        r matches Err(m) ==> m@ == "checksum mismatch: expected "@ + info.checksum@ + ", got "@
            + sha256_hex_of(data@),
{
    let digest = sha256_hex(data);
    if digest.eq(&info.checksum) {
        Ok(())
    } else {
        let mut m = String::from_str("checksum mismatch: expected ");
        m.append(info.checksum.as_str());
        m.append(", got ");
        m.append(digest.as_str());
        Err(m)
    }
}

/// The name of the file that holds an extension's metadata, beside its
/// directory.
pub fn metadata_file_name(extension_id: &str) -> (r: String)
    ensures
        r@ == extension_id@ + ".json"@,
{
    let mut r = extension_id.to_owned();
    r.append(".json");
    r
}

/// The directory one extension lives under, inside the extensions
/// directory.
pub fn get_extension_dir(extensions_dir: &str, extension_id: &str) -> (r: String)
    ensures
        r@ == extensions_dir@ + "/"@ + extension_id@,
{
    let mut r = extensions_dir.to_owned();
    r.append("/");
    r.append(extension_id);
    r
}

/// The name of the archive a download is saved under before unpacking.
pub fn archive_file_name(extension_id: &str) -> (r: String)
    ensures
        r@ == extension_id@ + ".tar.gz"@,
{
    let mut r = extension_id.to_owned();
    r.append(".tar.gz");
    r
}

/// The name of the file a single-file extension download is saved under.
pub fn download_file_name(extension_id: &str) -> (r: String)
    ensures
        r@ == extension_id@ + ".wasm"@,
{
    let mut r = extension_id.to_owned();
    r.append(".wasm");
    r
}

/// The record written for a fresh install: named after its identifier,
/// enabled, at the version installs carry until archives declare one.
pub fn new_extension_metadata(extension_id: &str, installed_at: String) -> (r: ExtensionMetadata)
    ensures
        r.id@ == extension_id@,
        r.name@ == extension_id@,
        r.version@ == "1.0.0"@,
        r.installed_at == installed_at,
        r.enabled,
{
    ExtensionMetadata {
        id: extension_id.to_owned(),
        name: extension_id.to_owned(),
        version: String::from_str("1.0.0"),
        installed_at,
        enabled: true,
    }
}

/// Where the application-bundled extensions live, relative to the process
/// working directory: a process started inside the backend source
/// directory first steps up to the project root.
pub open spec fn bundled_path_of(cwd: Seq<char>) -> Seq<char> {
    let base = if last_segment(cwd) == "src-tauri"@ {
        if find_last(cwd, '/') >= 0 {
            cwd.subrange(0, find_last(cwd, '/'))
        } else {
            Seq::empty()
        }
    } else {
        cwd
    };
    if base.len() == 0 {
        "src/extensions/bundled"@
    } else {
        base + "/src/extensions/bundled"@
    }
}

/// The bundled-extensions directory for the working directory `cwd`.
pub fn get_bundled_extensions_path(cwd: &str) -> (r: String)
    ensures
        r@ == bundled_path_of(cwd@),
{
    let v = chars_of(cwd);
    let seg = crate::text::last_segment_of(cwd);
    let marker = String::from_str("src-tauri");
    let base: String = if seg.eq(&marker) {
        match find_last_char(&v, '/') {
            Some(sl) => {
                let mut b: Vec<char> = Vec::new();
                let mut i: usize = 0;
                while i < sl
                    invariant
                        i <= sl < v@.len(),
                        b@ == v@.subrange(0, i as int),
                    decreases sl - i,
                {
                    b.push(v[i]);
                    assert(b@ =~= v@.subrange(0, i + 1));
                    i = i + 1;
                }
                string_from_chars(&b)
            },
            None => String::new(),
        }
    } else {
        cwd.to_owned()
    };
    if base.as_str().is_empty() {
        String::from_str("src/extensions/bundled")
    } else {
        let mut r = base;
        r.append("/src/extensions/bundled");
        r
    }
}

} // verus!
