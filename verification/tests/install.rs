use std::io::Write;

use ai_proxy::install::{
    asset_suffix, choose_config_example, choose_tar_entry, choose_zip_entry,
    extract_binary_from_zip, find_binary_in_tar_gz, find_config_example_in_tar_gz,
    find_download_url, has_file_name, install_progress, is_zip, HostSystem, InstallStep,
};
use ai_proxy::json::Json;

fn text(s: &str) -> Json {
    Json::Text(s.to_string())
}

fn object(fields: Vec<(&str, Json)>) -> Json {
    Json::Object(
        fields
            .into_iter()
            .map(|(k, v)| (k.to_string(), v))
            .collect(),
    )
}

fn tar_gz(paths: &[&str]) -> Vec<u8> {
    let encoder = flate2::write::GzEncoder::new(Vec::new(), flate2::Compression::fast());
    let mut builder = tar::Builder::new(encoder);
    for path in paths {
        let mut head = tar::Header::new_gnu();
        head.set_size(4);
        head.set_mode(0o644);
        head.set_cksum();
        builder.append_data(&mut head, path, &b"data"[..]).unwrap();
    }
    builder.into_inner().unwrap().finish().unwrap()
}

fn zip_of(entries: &[(&str, &[u8])]) -> Vec<u8> {
    let mut writer = zip::ZipWriter::new(std::io::Cursor::new(Vec::new()));
    for (name, content) in entries {
        writer
            .start_file(*name, zip::write::SimpleFileOptions::default())
            .unwrap();
        writer.write_all(content).unwrap();
    }
    writer.finish().unwrap().into_inner()
}

#[test]
fn suffixes_per_system() {
    assert_eq!(asset_suffix(HostSystem::MacOs, true), "darwin_arm64.tar.gz");
    assert_eq!(asset_suffix(HostSystem::Windows, false), "windows_amd64.zip");
    assert_eq!(asset_suffix(HostSystem::Linux, false), "linux_amd64.tar.gz");
    assert!(is_zip(HostSystem::Windows));
    assert!(!is_zip(HostSystem::Linux));
}

#[test]
fn steps_rise_to_a_hundred() {
    let steps = [
        InstallStep::Starting,
        InstallStep::Fetching,
        InstallStep::Downloading,
        InstallStep::Extracting,
        InstallStep::Installing,
        InstallStep::Complete,
    ];
    let percents: Vec<u8> = steps.iter().map(|s| install_progress(*s).percent).collect();
    assert_eq!(percents, vec![0, 10, 25, 60, 85, 100]);
    let done = install_progress(InstallStep::Complete);
    assert_eq!(done.stage, "complete");
    assert_eq!(done.message, "AI proxy backend installed successfully!");
}

#[test]
fn the_matching_asset_is_downloaded() {
    let release = object(vec![(
        "assets",
        Json::Array(vec![
            object(vec![("name", text("x_linux_arm64.tar.gz"))]),
            object(vec![("browser_download_url", text("nameless"))]),
            object(vec![
                ("name", text("x_linux_amd64.tar.gz.sha")),
                ("browser_download_url", text("wrong")),
            ]),
            object(vec![("name", text("y_linux_amd64.tar.gz"))]),
            object(vec![
                ("name", text("x_linux_amd64.tar.gz")),
                ("browser_download_url", text("https://example.com/x")),
            ]),
        ]),
    )]);
    assert_eq!(
        find_download_url(&release, "linux_amd64.tar.gz"),
        Ok("https://example.com/x".to_string())
    );
    assert_eq!(
        find_download_url(&release, "windows_amd64.zip"),
        Err("No release asset found for windows_amd64.zip".to_string())
    );
    assert_eq!(
        find_download_url(&Json::Null, "x"),
        Err("No assets in release".to_string())
    );
}

#[test]
fn file_names_are_last_components() {
    let is = |path: &str, name: &str| has_file_name(&path.as_bytes().to_vec(), name);
    for path in ["a/b", "b", "./b", "a/b/", "a/b/.", "a//b", "/b", "a/b/./"] {
        assert!(is(path, "b"), "{path}");
        assert_eq!(
            std::path::Path::new(path).file_name().and_then(|n| n.to_str()),
            Some("b")
        );
    }
    for path in ["", ".", "..", "a/..", "/", "./.", "b/c", "xb", "a/b/.."] {
        assert!(!is(path, "b"), "{path}");
    }
    assert!(is("...", "..."));
}

#[test]
fn the_binary_is_found_in_a_tar_archive() {
    let archive = tar_gz(&["README.md", "dir/cli-proxy-api-plus", "config.example.yaml"]);
    assert_eq!(find_binary_in_tar_gz(&archive), Ok(1));
    assert_eq!(find_config_example_in_tar_gz(&archive), Some(2));
    let without = tar_gz(&["cli-proxy-api-plus.sig"]);
    assert_eq!(
        find_binary_in_tar_gz(&without),
        Err("Binary 'cli-proxy-api-plus' not found in archive".to_string())
    );
    assert_eq!(find_config_example_in_tar_gz(&without), None);
    let broken = find_binary_in_tar_gz(b"not gzip").unwrap_err();
    assert!(broken.starts_with("Failed to read tar"), "{broken}");
    assert_eq!(find_config_example_in_tar_gz(b"not gzip"), None);
}

#[test]
fn unreadable_tar_entries_end_the_search() {
    let entries = vec![
        Ok(b"x".to_vec()),
        Err("bad".to_string()),
        Ok(b"cli-proxy-api-plus".to_vec()),
        Ok(b"d/config.example.yaml".to_vec()),
    ];
    assert_eq!(
        choose_tar_entry(&entries),
        Err("Failed to read tar entry: bad".to_string())
    );
    assert_eq!(choose_config_example(&entries), Some(3));
}

#[test]
fn the_binary_is_read_from_a_zip_archive() {
    let archive = zip_of(&[
        ("readme", b"r"),
        ("cli-proxy-api-plus/", b""),
        ("dir/cli-proxy-api-plus.exe", b"the program"),
    ]);
    assert_eq!(
        extract_binary_from_zip(&archive),
        Ok(b"the program".to_vec())
    );
    assert_eq!(
        extract_binary_from_zip(&zip_of(&[("readme", b"r")])),
        Err("Binary 'cli-proxy-api-plus' not found in zip".to_string())
    );
    let broken = extract_binary_from_zip(b"not zip").unwrap_err();
    assert!(broken.starts_with("Failed to read zip: "), "{broken}");
    assert_eq!(
        choose_zip_entry(&vec![Err("bad".to_string())]),
        Err("Failed to read zip entry: bad".to_string())
    );
}
