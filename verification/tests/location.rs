use delta_kernel::error::Error;
use delta_kernel::location::{local_path, require_local, FileMeta};
use std::path::PathBuf;

#[test]
fn a_file_url_leads_to_its_path() {
    assert_eq!(
        local_path("file:///tmp/table/part-0.parquet"),
        Ok(PathBuf::from("/tmp/table/part-0.parquet"))
    );
}

#[test]
fn percent_escapes_are_decoded_in_the_path() {
    assert_eq!(local_path("file:///tmp/a%20b/c.parquet"), Ok(PathBuf::from("/tmp/a b/c.parquet")));
}

#[test]
fn a_url_with_a_remote_host_is_not_local() {
    assert_eq!(local_path("s3://bucket/table/part-0.parquet"), Err(Error::UnsupportedLocation));
    assert_eq!(local_path("https://example.com/part-0.parquet"), Err(Error::UnsupportedLocation));
    assert_eq!(local_path("file://server/share/part-0.parquet"), Err(Error::UnsupportedLocation));
}

#[test]
fn a_url_without_a_path_is_not_local() {
    assert_eq!(local_path("mailto:someone@example.com"), Err(Error::UnsupportedLocation));
}

#[test]
fn text_that_is_no_url_is_not_local() {
    assert_eq!(local_path(""), Err(Error::UnsupportedLocation));
    assert_eq!(local_path("/tmp/part-0.parquet"), Err(Error::UnsupportedLocation));
    assert_eq!(local_path("part-0.parquet"), Err(Error::UnsupportedLocation));
}

#[test]
fn a_path_found_is_handed_on_and_a_path_missing_is_refused() {
    assert_eq!(require_local(Some(PathBuf::from("/x"))), Ok(PathBuf::from("/x")));
    assert_eq!(require_local(None), Err(Error::UnsupportedLocation));
}

#[test]
fn file_metadata_resolves_its_own_location() {
    let local =
        FileMeta { location: "file:///data/f.parquet".to_string(), last_modified: 1, size: 2 };
    assert_eq!(local.local_path(), Ok(PathBuf::from("/data/f.parquet")));
    let remote = FileMeta { location: "gs://b/f.parquet".to_string(), last_modified: 1, size: 2 };
    assert_eq!(remote.local_path(), Err(Error::UnsupportedLocation));
}

#[test]
fn text_without_a_colon_is_always_refused() {
    for text in ["", " ", "file", "file//tmp/x", "//localhost/tmp/x", "tmp/a b/c", "\tfile\n"] {
        assert!(!text.contains(':'));
        assert_eq!(local_path(text), Err(Error::UnsupportedLocation));
        let meta = FileMeta { location: text.to_string(), last_modified: 0, size: 0 };
        assert_eq!(meta.local_path(), Err(Error::UnsupportedLocation));
    }
}

#[test]
fn a_path_that_is_no_unicode_text_is_still_a_local_path() {
    let path = local_path("file:///tmp/%FF%FE.parquet").unwrap();
    assert!(path.to_str().is_none());
    assert!(path.is_absolute());
}
