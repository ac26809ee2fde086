//! Installing the backend from its latest release.

use vstd::prelude::*;
#[allow(unused_imports)]
use vstd::utf8::encode_utf8;

use crate::catalog::field_array;
#[allow(unused_imports)]
use crate::catalog::array_field;
use crate::json::{Json, JsonView};
#[allow(unused_imports)]
use crate::json::json_views;
use crate::text::{contains, ends_with, join2, join3};
#[allow(unused_imports)]
use crate::text::{finishes_with, has_substring};

verus! {

// ---------------------------------------------------------------------------
// Progress
// ---------------------------------------------------------------------------

/// How far an installation has come.
#[derive(Debug, Clone)]
pub struct AiProxyInstallProgress {
    pub stage: String,
    pub message: String,
    pub percent: u8,
}

/// The steps of an installation.
#[derive(Debug, Clone, Copy, PartialEq, Eq, Structural)]
pub enum InstallStep {
    Starting,
    Fetching,
    Downloading,
    Extracting,
    Installing,
    Complete,
}

/// The stage, the message and the percentage of a step.
pub open spec fn step_progress(step: InstallStep) -> (Seq<char>, Seq<char>, u8) {
    match step {
        InstallStep::Starting => ("starting"@, "Preparing installation..."@, 0),
        InstallStep::Fetching => ("fetching"@, "Fetching latest release info..."@, 10),
        InstallStep::Downloading => ("downloading"@, "Downloading AI proxy backend..."@, 25),
        InstallStep::Extracting => ("extracting"@, "Extracting binary from archive..."@, 60),
        InstallStep::Installing => ("installing"@, "Setting up binary..."@, 85),
        InstallStep::Complete => ("complete"@, "AI proxy backend installed successfully!"@, 100),
    }
}

/// What is shown of a step.
pub fn install_progress(step: InstallStep) -> (r: AiProxyInstallProgress)
    ensures
        (r.stage@, r.message@, r.percent) == step_progress(step),
{
    let (stage, message, percent): (&str, &str, u8) = match step {
        InstallStep::Starting => ("starting", "Preparing installation...", 0),
        InstallStep::Fetching => ("fetching", "Fetching latest release info...", 10),
        InstallStep::Downloading => ("downloading", "Downloading AI proxy backend...", 25),
        InstallStep::Extracting => ("extracting", "Extracting binary from archive...", 60),
        InstallStep::Installing => ("installing", "Setting up binary...", 85),
        InstallStep::Complete => ("complete", "AI proxy backend installed successfully!", 100),
    };
    AiProxyInstallProgress { stage: stage.to_owned(), message: message.to_owned(), percent }
}

/// An installation step.
pub open spec fn step_order(step: InstallStep) -> int {
    match step {
        InstallStep::Starting => 0,
        InstallStep::Fetching => 1,
        InstallStep::Downloading => 2,
        InstallStep::Extracting => 3,
        InstallStep::Installing => 4,
        InstallStep::Complete => 5,
    }
}

/// Later steps have a higher percentage, from nothing up to a hundred.
pub proof fn progress_rises(a: InstallStep, b: InstallStep)
    requires
        step_order(a) < step_order(b),
    ensures
        step_progress(a).2 < step_progress(b).2 <= 100,
{
}

// ---------------------------------------------------------------------------
// Release assets
// ---------------------------------------------------------------------------

/// The systems that releases are made for.
#[derive(Debug, Clone, Copy, PartialEq, Eq, Structural)]
pub enum HostSystem {
    MacOs,
    Windows,
    Linux,
}

/// What the name of the release's archive for a system ends with.
pub open spec fn asset_suffix_of(system: HostSystem, arm: bool) -> Seq<char> {
    let (os, ext) = match system {
        HostSystem::MacOs => ("darwin_"@, ".tar.gz"@),
        HostSystem::Windows => ("windows_"@, ".zip"@),
        HostSystem::Linux => ("linux_"@, ".tar.gz"@),
    };
    os + (if arm {
        "arm64"@
    } else {
        "amd64"@
    }) + ext
}

/// What the name of the release's archive for a system ends with.
pub fn asset_suffix(system: HostSystem, arm: bool) -> (r: String)
    ensures
        r@ == asset_suffix_of(system, arm),
{
    let (os, ext): (&str, &str) = match system {
        HostSystem::MacOs => ("darwin_", ".tar.gz"),
        HostSystem::Windows => ("windows_", ".zip"),
        HostSystem::Linux => ("linux_", ".tar.gz"),
    };
    let arch: &str = if arm {
        "arm64"
    } else {
        "amd64"
    };
    join3(os, arch, ext)
}

/// The release's archive for a system is a zip file.
pub fn is_zip(system: HostSystem) -> (r: bool)
    ensures
        r == (system is Windows),
{
    matches!(system, HostSystem::Windows)
}

/// The address of the first asset whose name ends with the suffix and that
/// has one.
pub open spec fn asset_url(assets: Seq<JsonView>, suffix: Seq<char>) -> Option<Seq<char>>
    decreases assets.len(),
{
    if assets.len() == 0 {
        None
    } else {
        let url = assets[0].text_field("browser_download_url"@);
        let rest = asset_url(assets.drop_first(), suffix);
        match assets[0].text_field("name"@) {
            Some(name) => if finishes_with(name, suffix) && url is Some {
                url
            } else {
                rest
            },
            None => rest,
        }
    }
}

/// The address from which the archive of a release is downloaded.
pub fn find_download_url(release: &Json, suffix: &str) -> (r: Result<String, String>)
    ensures
        match array_field(release@, "assets"@) {
            None => r matches Err(e) && e@ == "No assets in release"@,
            Some(assets) => match asset_url(assets, suffix@) {
                Some(url) => r matches Ok(u) && u@ == url,
                None => r matches Err(e) && e@ == "No release asset found for "@ + suffix@,
            },
        },
{
    match field_array(release, "assets") {
        Some(assets) => {
            let ghost all = json_views(assets@);
            let mut i: usize = 0;
            assert(all.skip(0) =~= all);
            while i < assets.len()
                invariant
                    i <= assets@.len(),
                    all == json_views(assets@),
                    array_field(release@, "assets"@) == Some(all),
                    asset_url(all, suffix@) == asset_url(all.skip(i as int), suffix@),
                decreases assets@.len() - i,
            {
                let asset = &assets[i];
                assert(all.skip(i as int)[0] == asset@);
                assert(all.skip(i as int).drop_first() =~= all.skip(i + 1));
                match asset.text_field("name") {
                    Some(name) => {
                        if ends_with(name.as_str(), suffix) {
                            match asset.text_field("browser_download_url") {
                                Some(url) => {
                                    return Ok(url);
                                },
                                None => {},
                            }
                        }
                    },
                    None => {},
                }
                i = i + 1;
            }
            Err(join2("No release asset found for ", suffix))
        },
        None => Err("No assets in release".to_owned()),
    }
}

// ---------------------------------------------------------------------------
// Paths
// ---------------------------------------------------------------------------

/// Where the last component of a path begins: behind its last slash.
pub open spec fn last_start(path: Seq<u8>) -> int
    decreases path.len(),
{
    if path.len() == 0 {
        0
    } else if path.last() == 47 {
        path.len() as int
    } else {
        last_start(path.drop_last())
    }
}

/// The file name of a path: its last component, components that are empty or
/// a single dot left aside. A path that ends in `..` has none.
pub open spec fn path_file_name(path: Seq<u8>) -> Option<Seq<u8>>
    decreases path.len(),
{
    let start = last_start(path);
    let name = path.skip(start);
    if path.len() == 0 {
        None
    } else if path.last() == 47 {
        path_file_name(path.drop_last())
    } else if name == seq![46u8] {
        if start > 0 {
            path_file_name(path.drop_last())
        } else {
            None
        }
    } else if name == seq![46u8, 46u8] {
        None
    } else {
        Some(name)
    }
}

/// The first `n` bytes of the path have the file name `name`.
fn file_name_is(path: &Vec<u8>, n: usize, name: &[u8]) -> (r: bool)
    requires
        n <= path@.len(),
    ensures
        r == (path_file_name(path@.take(n as int)) == Some(name@)),
    decreases n,
{
    let ghost p = path@.take(n as int);
    if n == 0 {
        return false;
    }
    assert(p.last() == path@[n - 1]);
    assert(p.drop_last() =~= path@.take(n - 1));
    if path[n - 1] == 47 {
        return file_name_is(path, n - 1, name);
    }
    let mut start: usize = n;
    while start > 0 && path[start - 1] != 47
        invariant
            0 <= start <= n,
            n <= path@.len(),
            p == path@.take(n as int),
            last_start(p) == last_start(path@.take(start as int)),
            start < n || path@[n - 1] != 47,
        decreases start,
    {
        assert(path@.take(start as int).last() == path@[start - 1]);
        assert(path@.take(start as int).drop_last() =~= path@.take(start - 1));
        start = start - 1;
    }
    proof {
        if start > 0 {
            assert(path@.take(start as int).last() == path@[start - 1]);
        }
        assert(last_start(p) == start);
    }
    let ghost last = p.skip(start as int);
    let len: usize = n - start;
    assert(last.len() == len);
    if len == 1 && path[start] == 46 {
        assert(last =~= seq![46u8]);
        if start > 0 {
            return file_name_is(path, n - 1, name);
        }
        return false;
    }
    proof {
        if last == seq![46u8] {
            assert(last[0] == 46);
        }
    }
    if len == 2 && path[start] == 46 && path[start + 1] == 46 {
        assert(last =~= seq![46u8, 46u8]);
        return false;
    }
    proof {
        if last == seq![46u8, 46u8] {
            assert(last[0] == 46 && last[1] == 46);
        }
        assert(path_file_name(p) == Some(last));
    }
    if len != name.len() {
        return false;
    }
    let mut i: usize = 0;
    while i < len
        invariant
            i <= len,
            len == name@.len(),
            start + len == n,
            n <= path@.len(),
            p == path@.take(n as int),
            last == p.skip(start as int),
            path_file_name(p) == Some(last),
            forall|j: int| 0 <= j < i ==> last[j] == name@[j],
        decreases len - i,
    {
        assert(last[i as int] == path@[start + i]);
        if path[start + i] != name[i] {
            return false;
        }
        i = i + 1;
    }
    assert(last =~= name@);
    true
}

/// The file name of a path is the given one.
pub fn has_file_name(path: &Vec<u8>, name: &str) -> (r: bool)
    ensures
        r == (path_file_name(path@) == Some(encode_utf8(name@))),
{
    assert(path@.take(path@.len() as int) =~= path@);
    file_name_is(path, path.len(), name.as_bytes())
}

// ---------------------------------------------------------------------------
// Archives
// ---------------------------------------------------------------------------

/// The paths of the entries of a gzipped tar archive, as the `flate2` and
/// `tar` crates read them: the text of the error where the archive cannot be
/// read, and in place of an entry that cannot be read.
pub uninterp spec fn tar_gz_paths(bytes: Seq<u8>) -> Result<
    Seq<Result<Seq<u8>, Seq<char>>>,
    Seq<char>,
>;

/// The names of the entries of a zip archive, as the `zip` crate reads them:
/// the text of the error where the archive cannot be read, and in place of an
/// entry that cannot be read.
pub uninterp spec fn zip_names(bytes: Seq<u8>) -> Result<
    Seq<Result<Seq<char>, Seq<char>>>,
    Seq<char>,
>;

/// The content of an entry of a zip archive, as the `zip` crate reads it, or
/// the text of the error.
pub uninterp spec fn zip_content(bytes: Seq<u8>, index: int) -> Result<Seq<u8>, Seq<char>>;

/// The view of an entry's path.
pub open spec fn path_entry(e: Result<Vec<u8>, String>) -> Result<Seq<u8>, Seq<char>> {
    match e {
        Ok(p) => Ok(p@),
        Err(t) => Err(t@),
    }
}

/// The view of a list of paths.
pub open spec fn path_list(r: Result<Vec<Result<Vec<u8>, String>>, String>) -> Result<
    Seq<Result<Seq<u8>, Seq<char>>>,
    Seq<char>,
> {
    match r {
        Ok(v) => Ok(path_entries(v@)),
        Err(t) => Err(t@),
    }
}

/// The views of the paths.
pub open spec fn path_entries(v: Seq<Result<Vec<u8>, String>>) -> Seq<
    Result<Seq<u8>, Seq<char>>,
> {
    Seq::new(v.len(), |i: int| path_entry(v[i]))
}

/// The view of an entry's name.
pub open spec fn name_entry(e: Result<String, String>) -> Result<Seq<char>, Seq<char>> {
    match e {
        Ok(n) => Ok(n@),
        Err(t) => Err(t@),
    }
}

/// The views of the names.
pub open spec fn name_entries(v: Seq<Result<String, String>>) -> Seq<
    Result<Seq<char>, Seq<char>>,
> {
    Seq::new(v.len(), |i: int| name_entry(v[i]))
}

/// The view of a list of names.
pub open spec fn name_list(r: Result<Vec<Result<String, String>>, String>) -> Result<
    Seq<Result<Seq<char>, Seq<char>>>,
    Seq<char>,
> {
    match r {
        Ok(v) => Ok(name_entries(v@)),
        Err(t) => Err(t@),
    }
}

/// `tar::Archive::entries` over `flate2::read::GzDecoder`: the path of each
/// entry (`tar::Entry::path_bytes`), or the text of the error. It depends on
/// the bytes alone, and is given a name.
#[verifier::external_body]
fn list_tar_gz(bytes: &[u8]) -> (r: Result<Vec<Result<Vec<u8>, String>>, String>)
    ensures
        path_list(r) == tar_gz_paths(bytes@),
{
    let mut archive = tar::Archive::new(flate2::read::GzDecoder::new(bytes));
    match archive.entries() {
        Ok(entries) => Ok(
            entries.map(
                |entry| match entry {
                    Ok(e) => Ok(e.path_bytes().into_owned()),
                    Err(e) => Err(e.to_string()),
                },
            ).collect(),
        ),
        Err(e) => Err(e.to_string()),
    }
}

/// `zip::ZipArchive::new` and `zip::ZipArchive::by_index`: the name of each
/// entry, or the text of the error. It depends on the bytes alone, and is
/// given a name.
#[verifier::external_body]
fn list_zip(bytes: &[u8]) -> (r: Result<Vec<Result<String, String>>, String>)
    ensures
        name_list(r) == zip_names(bytes@),
{
    match zip::ZipArchive::new(std::io::Cursor::new(bytes)) {
        Ok(mut z) => Ok(
            (0..z.len()).map(
                |i| match z.by_index(i) {
                    Ok(file) => Ok(file.name().to_owned()),
                    Err(e) => Err(e.to_string()),
                },
            ).collect(),
        ),
        Err(e) => Err(e.to_string()),
    }
}

/// `zip::ZipArchive::by_index`, read to its end: the content of the entry, or
/// the text of the error. It depends on the bytes and the index alone, and is
/// given a name.
#[verifier::external_body]
fn read_zip_entry(bytes: &[u8], index: usize) -> (r: Result<Vec<u8>, String>)
    ensures
        path_entry(r) == zip_content(bytes@, index as int),
{
    let mut content: Vec<u8> = Vec::new();
    let mut z = zip::ZipArchive::new(std::io::Cursor::new(bytes)).map_err(|e| e.to_string())?;
    let mut file = z.by_index(index).map_err(|e| e.to_string())?;
    std::io::Read::read_to_end(&mut file, &mut content).map_err(|e| e.to_string())?;
    Ok(content)
}

/// The first entry from `i` on whose file name is the backend's, or the text
/// of the error: an unreadable entry before it ends the search.
pub open spec fn tar_choice(entries: Seq<Result<Seq<u8>, Seq<char>>>, i: int) -> Result<
    int,
    Seq<char>,
>
    decreases entries.len() - i,
{
    if i < 0 || i >= entries.len() {
        Err("Binary 'cli-proxy-api-plus' not found in archive"@)
    } else {
        match entries[i] {
            Err(e) => Err("Failed to read tar entry: "@ + e),
            Ok(path) => if path_file_name(path) == Some(encode_utf8("cli-proxy-api-plus"@)) {
                Ok(i)
            } else {
                tar_choice(entries, i + 1)
            },
        }
    }
}

/// The result of choosing an entry, as values.
pub open spec fn choice_view(r: Result<usize, String>) -> Result<int, Seq<char>> {
    match r {
        Ok(i) => Ok(i as int),
        Err(e) => Err(e@),
    }
}

/// The entry of a tar archive that holds the backend.
pub fn choose_tar_entry(entries: &Vec<Result<Vec<u8>, String>>) -> (r: Result<usize, String>)
    ensures
        choice_view(r) == tar_choice(path_entries(entries@), 0),
        r matches Ok(i) ==> i < entries@.len(),
{
    let ghost all = path_entries(entries@);
    let mut i: usize = 0;
    while i < entries.len()
        invariant
            i <= entries@.len(),
            all == path_entries(entries@),
            tar_choice(all, 0) == tar_choice(all, i as int),
        decreases entries@.len() - i,
    {
        assert(all[i as int] == path_entry(entries@[i as int]));
        match &entries[i] {
            Ok(path) => {
                if has_file_name(path, "cli-proxy-api-plus") {
                    return Ok(i);
                }
            },
            Err(e) => {
                return Err(join2("Failed to read tar entry: ", e.as_str()));
            },
        }
        i = i + 1;
    }
    Err("Binary 'cli-proxy-api-plus' not found in archive".to_owned())
}

/// The entry of a gzipped tar archive that holds the backend.
pub fn find_binary_in_tar_gz(bytes: &[u8]) -> (r: Result<usize, String>)
    ensures
        match tar_gz_paths(bytes@) {
            Ok(entries) => choice_view(r) == tar_choice(entries, 0),
            Err(e) => r matches Err(t) && t@ == "Failed to read tar: "@ + e,
        },
{
    match list_tar_gz(bytes) {
        Ok(entries) => choose_tar_entry(&entries),
        Err(e) => Err(join2("Failed to read tar: ", e.as_str())),
    }
}

/// The first entry from `i` on that is the example configuration; unreadable
/// entries are passed over.
pub open spec fn example_choice(entries: Seq<Result<Seq<u8>, Seq<char>>>, i: int) -> Option<int>
    decreases entries.len() - i,
{
    if i < 0 || i >= entries.len() {
        None
    } else {
        match entries[i] {
            Err(_) => example_choice(entries, i + 1),
            Ok(path) => if path_file_name(path) == Some(encode_utf8("config.example.yaml"@)) {
                Some(i)
            } else {
                example_choice(entries, i + 1)
            },
        }
    }
}

/// The entry of a tar archive that holds the example configuration.
pub fn choose_config_example(entries: &Vec<Result<Vec<u8>, String>>) -> (r: Option<usize>)
    ensures
        match r {
            Some(i) => example_choice(path_entries(entries@), 0) == Some(i as int) && i
                < entries@.len(),
            None => example_choice(path_entries(entries@), 0) is None,
        },
{
    let ghost all = path_entries(entries@);
    let mut i: usize = 0;
    while i < entries.len()
        invariant
            i <= entries@.len(),
            all == path_entries(entries@),
            example_choice(all, 0) == example_choice(all, i as int),
        decreases entries@.len() - i,
    {
        assert(all[i as int] == path_entry(entries@[i as int]));
        match &entries[i] {
            Ok(path) => {
                if has_file_name(path, "config.example.yaml") {
                    return Some(i);
                }
            },
            Err(_) => {},
        }
        i = i + 1;
    }
    None
}

/// The entry of a gzipped tar archive that holds the example configuration.
pub fn find_config_example_in_tar_gz(bytes: &[u8]) -> (r: Option<usize>)
    ensures
        match tar_gz_paths(bytes@) {
            Ok(entries) => match r {
                Some(i) => example_choice(entries, 0) == Some(i as int),
                None => example_choice(entries, 0) is None,
            },
            Err(_) => r is None,
        },
{
    match list_tar_gz(bytes) {
        Ok(entries) => choose_config_example(&entries),
        Err(_) => None,
    }
}

/// A zip entry that holds the backend: a file whose name mentions it.
pub open spec fn zip_binary(name: Seq<char>) -> bool {
    has_substring(name, "cli-proxy-api-plus"@) && !finishes_with(name, "/"@)
}

/// The first entry from `i` on that holds the backend, or the text of the
/// error: an unreadable entry before it ends the search.
pub open spec fn zip_choice(entries: Seq<Result<Seq<char>, Seq<char>>>, i: int) -> Result<
    int,
    Seq<char>,
>
    decreases entries.len() - i,
{
    if i < 0 || i >= entries.len() {
        Err("Binary 'cli-proxy-api-plus' not found in zip"@)
    } else {
        match entries[i] {
            Err(e) => Err("Failed to read zip entry: "@ + e),
            Ok(name) => if zip_binary(name) {
                Ok(i)
            } else {
                zip_choice(entries, i + 1)
            },
        }
    }
}

/// The entry of a zip archive that holds the backend.
pub fn choose_zip_entry(entries: &Vec<Result<String, String>>) -> (r: Result<usize, String>)
    ensures
        choice_view(r) == zip_choice(name_entries(entries@), 0),
        r matches Ok(i) ==> i < entries@.len(),
{
    let ghost all = name_entries(entries@);
    let mut i: usize = 0;
    while i < entries.len()
        invariant
            i <= entries@.len(),
            all == name_entries(entries@),
            zip_choice(all, 0) == zip_choice(all, i as int),
        decreases entries@.len() - i,
    {
        assert(all[i as int] == name_entry(entries@[i as int]));
        match &entries[i] {
            Ok(name) => {
                if contains(name.as_str(), "cli-proxy-api-plus") && !ends_with(
                    name.as_str(),
                    "/",
                ) {
                    return Ok(i);
                }
            },
            Err(e) => {
                return Err(join2("Failed to read zip entry: ", e.as_str()));
            },
        }
        i = i + 1;
    }
    Err("Binary 'cli-proxy-api-plus' not found in zip".to_owned())
}

/// The backend in a zip archive.
pub fn extract_binary_from_zip(bytes: &[u8]) -> (r: Result<Vec<u8>, String>)
    ensures
        match zip_names(bytes@) {
            Err(e) => r matches Err(t) && t@ == "Failed to read zip: "@ + e,
            Ok(entries) => match zip_choice(entries, 0) {
                Err(e) => r matches Err(t) && t@ == e,
                Ok(i) => match zip_content(bytes@, i) {
                    Ok(content) => r matches Ok(c) && c@ == content,
                    Err(e) => r matches Err(t) && t@ == "Failed to read zip entry: "@ + e,
                },
            },
        },
{
    match list_zip(bytes) {
        Ok(entries) => match choose_zip_entry(&entries) {
            Ok(i) => match read_zip_entry(bytes, i) {
                Ok(content) => Ok(content),
                Err(e) => Err(join2("Failed to read zip entry: ", e.as_str())),
            },
            Err(e) => Err(e),
        },
        Err(e) => Err(join2("Failed to read zip: ", e.as_str())),
    }
}

// ---------------------------------------------------------------------------
// Laws
// ---------------------------------------------------------------------------

/// What an installation shows of its steps.
pub proof fn steps_are_shown(step: InstallStep)
    ensures
        step is Starting ==> step_progress(step) == ("starting"@, "Preparing installation..."@, 0u8),
        step is Fetching ==> step_progress(step) == (
            "fetching"@,
            "Fetching latest release info..."@,
            10u8,
        ),
        step is Downloading ==> step_progress(step) == (
            "downloading"@,
            "Downloading AI proxy backend..."@,
            25u8,
        ),
        step is Extracting ==> step_progress(step) == (
            "extracting"@,
            "Extracting binary from archive..."@,
            60u8,
        ),
        step is Installing ==> step_progress(step) == ("installing"@, "Setting up binary..."@, 85u8),
        step is Complete ==> step_progress(step) == (
            "complete"@,
            "AI proxy backend installed successfully!"@,
            100u8,
        ),
{
}

/// An archive is called after its system, its processor and its kind: a zip
/// file for Windows, a gzipped tar file for the others.
pub proof fn archives_are_called_after_their_system(system: HostSystem, arm: bool)
    ensures
        ({
            let processor = if arm {
                "arm64"@
            } else {
                "amd64"@
            };
            &&& system is MacOs ==> asset_suffix_of(system, arm) == "darwin_"@ + processor
                + ".tar.gz"@
            &&& system is Linux ==> asset_suffix_of(system, arm) == "linux_"@ + processor
                + ".tar.gz"@
            &&& system is Windows ==> asset_suffix_of(system, arm) == "windows_"@ + processor
                + ".zip"@
        }),
{
}

/// The asset has a name that ends so, and an address.
pub open spec fn offers_archive(asset: JsonView, suffix: Seq<char>, url: Seq<char>) -> bool {
    &&& asset.get("name"@) matches Some(JsonView::Text(name)) && finishes_with(name, suffix)
    &&& asset.get("browser_download_url"@) == Some(JsonView::Text(url))
}

/// The first asset whose name ends so and that has an address is downloaded
/// from that address; there is none exactly if no asset is such.
pub proof fn the_first_archive_is_downloaded(
    assets: Seq<JsonView>,
    suffix: Seq<char>,
    i: int,
    url: Seq<char>,
)
    ensures
        0 <= i < assets.len() && offers_archive(assets[i], suffix, url) && (forall|k: int, u: Seq<
            char,
        >| 0 <= k < i ==> !#[trigger] offers_archive(assets[k], suffix, u)) ==> asset_url(
            assets,
            suffix,
        ) == Some(url),
        (forall|k: int, u: Seq<char>|
            0 <= k < assets.len() ==> !#[trigger] offers_archive(assets[k], suffix, u))
            ==> asset_url(assets, suffix) is None,
    decreases assets.len(),
{
    if assets.len() > 0 {
        let rest = assets.drop_first();
        let first = assets[0].text_field("browser_download_url"@);
        the_first_archive_is_downloaded(rest, suffix, i - 1, url);
        if first is Some {
            assert(offers_archive(assets[0], suffix, first->0) <==> (assets[0].text_field(
                "name"@,
            ) matches Some(name) && finishes_with(name, suffix)));
        }
        if 0 < i < assets.len() {
            assert(rest[i - 1] == assets[i]);
        }
        if 0 < i && forall|k: int, u: Seq<char>|
            0 <= k < i ==> !#[trigger] offers_archive(assets[k], suffix, u) {
            if first is Some {
                assert(!offers_archive(assets[0], suffix, first->0));
            }
            assert forall|k: int, u: Seq<char>|
                0 <= k < i - 1 && k < rest.len() implies !#[trigger] offers_archive(
                rest[k],
                suffix,
                u,
            ) by {
                assert(rest[k] == assets[k + 1]);
                assert(!offers_archive(assets[k + 1], suffix, u));
            }
        }
        if forall|k: int, u: Seq<char>|
            0 <= k < assets.len() ==> !#[trigger] offers_archive(assets[k], suffix, u) {
            if first is Some {
                assert(!offers_archive(assets[0], suffix, first->0));
            }
            assert forall|k: int, u: Seq<char>| 0 <= k < rest.len() implies !#[trigger]
            offers_archive(rest[k], suffix, u) by {
                assert(rest[k] == assets[k + 1]);
                assert(!offers_archive(assets[k + 1], suffix, u));
            }
        }
    }
}

/// The file name of a path is what follows its last slash, and the path itself
/// where it has none; slashes at the end do not count, and `..` is no name.
pub proof fn file_names_follow_the_last_slash(dir: Seq<u8>, name: Seq<u8>)
    requires
        name.len() > 0,
        !name.contains(47u8),
        name != seq![46u8],
        name != seq![46u8, 46u8],
    ensures
        path_file_name(dir + seq![47u8] + name) == Some(name),
        path_file_name(name) == Some(name),
        path_file_name(dir + seq![47u8] + name + seq![47u8]) == Some(name),
        path_file_name(dir + seq![47u8, 46u8, 46u8]) is None,
{
    let p = dir + seq![47u8] + name;
    lemma_last_start(dir + seq![47u8], name);
    assert(p =~= (dir + seq![47u8]) + name);
    assert(p.skip(dir.len() + 1int) =~= name);
    assert(p.last() == name[name.len() - 1]);
    assert(name.contains(name[name.len() - 1]));
    lemma_last_start(Seq::empty(), name);
    assert(Seq::<u8>::empty() + name =~= name);
    assert(name.skip(0) =~= name);
    let q = p + seq![47u8];
    assert(q.drop_last() =~= p);
    let up = dir + seq![47u8, 46u8, 46u8];
    let dots = seq![46u8, 46u8];
    assert(up =~= (dir + seq![47u8]) + dots);
    lemma_last_start(dir + seq![47u8], dots);
    assert(up.skip(dir.len() + 1int) =~= dots);
    assert(dots[0] != 47 && dots.len() == 2);
    assert(dots != seq![46u8]) by {
        assert(seq![46u8].len() == 1);
    }
}

proof fn lemma_last_start(lead: Seq<u8>, name: Seq<u8>)
    requires
        lead.len() == 0 || lead.last() == 47,
        !name.contains(47u8),
    ensures
        last_start(lead + name) == lead.len(),
    decreases name.len(),
{
    let p = lead + name;
    if name.len() > 0 {
        assert(p.last() == name.last());
        assert(name.contains(name[name.len() - 1]));
        assert forall|i: int| 0 <= i < name.drop_last().len() implies name.drop_last()[i]
            != 47 by {
            assert(name.contains(name[i]));
        }
        assert(p.drop_last() =~= lead + name.drop_last());
        lemma_last_start(lead, name.drop_last());
    } else {
        assert(p =~= lead);
    }
}

/// The entry can be read and is the backend.
pub open spec fn is_backend(e: Result<Seq<u8>, Seq<char>>) -> bool {
    e matches Ok(path) && path_file_name(path) == Some(encode_utf8("cli-proxy-api-plus"@))
}

/// The first entry of a tar archive that is the backend is taken, where every
/// entry before it can be read. An entry before it that cannot be read ends the
/// search, and so does the archive's end.
pub proof fn the_first_backend_in_a_tar_is_taken(
    entries: Seq<Result<Seq<u8>, Seq<char>>>,
    from: int,
    i: int,
)
    requires
        0 <= from <= i <= entries.len(),
        forall|k: int| from <= k < i ==> (#[trigger] entries[k]) is Ok && !is_backend(entries[k]),
    ensures
        i < entries.len() && is_backend(entries[i]) ==> tar_choice(entries, from) == Ok::<
            int,
            Seq<char>,
        >(i),
        i < entries.len() && entries[i] is Err ==> tar_choice(entries, from) == Err::<
            int,
            Seq<char>,
        >("Failed to read tar entry: "@ + entries[i]->Err_0),
        i == entries.len() ==> tar_choice(entries, from) == Err::<int, Seq<char>>(
            "Binary 'cli-proxy-api-plus' not found in archive"@,
        ),
    decreases i - from,
{
    if from < i {
        assert(entries[from] is Ok && !is_backend(entries[from]));
        the_first_backend_in_a_tar_is_taken(entries, from + 1, i);
    }
}

/// The first entry of a tar archive called `config.example.yaml` is the
/// example; entries that cannot be read are passed over.
pub proof fn the_first_example_in_a_tar_is_taken(
    entries: Seq<Result<Seq<u8>, Seq<char>>>,
    from: int,
    i: int,
)
    requires
        0 <= from <= i <= entries.len(),
        forall|k: int|
            from <= k < i ==> !((#[trigger] entries[k]) matches Ok(path) && path_file_name(path)
                == Some(encode_utf8("config.example.yaml"@))),
    ensures
        i < entries.len() && (entries[i] matches Ok(path) && path_file_name(path) == Some(
            encode_utf8("config.example.yaml"@),
        )) ==> example_choice(entries, from) == Some(i),
        i == entries.len() ==> example_choice(entries, from) is None,
    decreases i - from,
{
    if from < i {
        assert(!(entries[from] matches Ok(path) && path_file_name(path) == Some(
            encode_utf8("config.example.yaml"@),
        )));
        the_first_example_in_a_tar_is_taken(entries, from + 1, i);
    }
}

/// The first entry of a zip archive whose name has the backend's in it and is
/// no directory is taken, where every entry before it can be read.
pub proof fn the_first_backend_in_a_zip_is_taken(
    entries: Seq<Result<Seq<char>, Seq<char>>>,
    from: int,
    i: int,
)
    requires
        0 <= from <= i <= entries.len(),
        forall|k: int|
            from <= k < i ==> ((#[trigger] entries[k]) matches Ok(name) && !(has_substring(
                name,
                "cli-proxy-api-plus"@,
            ) && !finishes_with(name, seq!['/']))),
    ensures
        i < entries.len() && (entries[i] matches Ok(name) && has_substring(
            name,
            "cli-proxy-api-plus"@,
        ) && !finishes_with(name, seq!['/'])) ==> zip_choice(entries, from) == Ok::<int, Seq<char>>(
            i,
        ),
        i < entries.len() && entries[i] is Err ==> zip_choice(entries, from) == Err::<
            int,
            Seq<char>,
        >("Failed to read zip entry: "@ + entries[i]->Err_0),
        i == entries.len() ==> zip_choice(entries, from) == Err::<int, Seq<char>>(
            "Binary 'cli-proxy-api-plus' not found in zip"@,
        ),
    decreases i - from,
{
    reveal_strlit("/");
    assert("/"@ =~= seq!['/']);
    if from < i {
        assert(entries[from] matches Ok(name) && !(has_substring(name, "cli-proxy-api-plus"@)
            && !finishes_with(name, seq!['/'])));
        the_first_backend_in_a_zip_is_taken(entries, from + 1, i);
    }
}

/// Dots stand for no name: a single one at the end does not count, two are the
/// directory above, and nothing is no name either.
pub proof fn dots_are_no_names(dir: Seq<u8>, name: Seq<u8>)
    requires
        name.len() > 0,
        !name.contains(47u8),
        name != seq![46u8],
        name != seq![46u8, 46u8],
    ensures
        path_file_name(dir + seq![47u8] + name + seq![47u8, 46u8]) == Some(name),
        path_file_name(seq![46u8]) is None,
        path_file_name(seq![46u8, 46u8]) is None,
        path_file_name(Seq::empty()) is None,
        path_file_name(seq![47u8]) is None,
{
    file_names_follow_the_last_slash(dir, name);
    let lead = dir + seq![47u8] + name + seq![47u8];
    let dot = seq![46u8];
    let path = dir + seq![47u8] + name + seq![47u8, 46u8];
    assert(path =~= lead + dot);
    assert(!dot.contains(47u8));
    lemma_last_start(lead, dot);
    assert(path.skip(lead.len() as int) =~= dot);
    assert(path.drop_last() =~= lead);
    let none = Seq::<u8>::empty();
    lemma_last_start(none, dot);
    assert(none + dot =~= dot);
    assert(dot.skip(0) =~= dot);
    let dots = seq![46u8, 46u8];
    assert(!dots.contains(47u8));
    lemma_last_start(none, dots);
    assert(none + dots =~= dots);
    assert(dots.skip(0) =~= dots);
    assert(dots.len() == 2 && dot.len() == 1);
    assert(seq![47u8].drop_last() =~= none);
    assert(path_file_name(none) is None);
}

} // verus!
