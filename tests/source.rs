use geocoder::source::{entry_name, kind_cache_dir};
use geocoder::{
    cache_dirs, get_gazetteer_url, get_os_separator, get_postal_url, plan_download, variant_kind,
    CacheConfig, Data, FetchAction, FetchError, FetchEvent, FetchState, VariantKind,
};

#[test]
fn postal_urls() {
    assert_eq!(get_postal_url("GB"), "http://download.geonames.org/export/zip/GB.zip");
    assert_eq!(get_postal_url("GB_full"), "http://download.geonames.org/export/zip/GB_full.csv.zip");
    assert_eq!(get_postal_url("allCountries"), "http://download.geonames.org/export/zip/allCountries.zip");
}

#[test]
fn gazetteer_urls() {
    assert_eq!(
        get_gazetteer_url("US"),
        Ok("https://download.geonames.org/export/dump/US.zip".to_string())
    );
    for full in ["GB_full", "UK_full", "NL_full", "CA_full"] {
        assert_eq!(variant_kind(full), VariantKind::ExtendedCsvOnly);
        assert_eq!(get_gazetteer_url(full), Err(FetchError::UnsupportedCombination));
    }
    assert_eq!(variant_kind("GB"), VariantKind::Standard);
}

#[test]
fn separator() {
    let sep = get_os_separator();
    assert_eq!(sep, std::path::MAIN_SEPARATOR.to_string());
    assert_eq!(sep.chars().count(), 1);
}

#[test]
fn plans() {
    let config = CacheConfig { base_dir: "/tmp/geonames".to_string(), disable_cache: false };
    let plan = plan_download("GB", Data::Postal, &config, "/").unwrap();
    assert_eq!(plan.url, "http://download.geonames.org/export/zip/GB.zip");
    assert_eq!(plan.entry_name, "GB.txt");
    assert_eq!(plan.cache_dir, "/tmp/geonames/postal");
    assert_eq!(plan.cache_path, "/tmp/geonames/postal/GB.txt");
    assert!(plan.use_cache);
    let off = CacheConfig { base_dir: "c:".to_string(), disable_cache: true };
    let plan = plan_download("US", Data::Gazetteer, &off, "\\").unwrap();
    assert_eq!(plan.url, "https://download.geonames.org/export/dump/US.zip");
    assert_eq!(plan.cache_path, "c:\\gazetteer\\US.txt");
    assert!(!plan.use_cache);
    assert_eq!(
        plan_download("NL_full", Data::Gazetteer, &config, "/").err(),
        Some(FetchError::UnsupportedCombination)
    );
    assert_eq!(entry_name("NL_full"), "NL_full.txt");
    assert_eq!(kind_cache_dir("b", "/", Data::Gazetteer), "b/gazetteer");
}

#[test]
fn fetch_with_cache_hit() {
    let (s, a) = FetchState::Idle.next(true, FetchEvent::Started);
    assert_eq!(a, FetchAction::ReadCache);
    let (s, a) = s.next(true, FetchEvent::CacheHit);
    assert_eq!((s, a), (FetchState::Done, FetchAction::Deliver { from_cache: true, cache_error: false }));
}

#[test]
fn fetch_after_invalidation_transfers_again() {
    let config = CacheConfig { base_dir: "/tmp/g".to_string(), disable_cache: false };
    let plan = plan_download("GB", Data::Postal, &config, "/").unwrap();
    let dirs = cache_dirs("/tmp/g", "/");
    assert_eq!(dirs, vec!["/tmp/g/postal".to_string(), "/tmp/g/gazetteer".to_string()]);
    assert!(plan.cache_path.starts_with(&format!("{}/", dirs[0])));
    let (s, _) = FetchState::Idle.next(true, FetchEvent::Started);
    let (s, a) = s.next(true, FetchEvent::CacheMiss);
    assert_eq!((s, a), (FetchState::Transferring, FetchAction::Transfer));
    let (s, a) = s.next(true, FetchEvent::TransferOk);
    assert_eq!(a, FetchAction::Extract);
    let (s, a) = s.next(true, FetchEvent::ExtractOk);
    assert_eq!(a, FetchAction::WriteCache);
    let (s, a) = s.next(true, FetchEvent::WriteFailed);
    assert_eq!((s, a), (FetchState::Done, FetchAction::Deliver { from_cache: false, cache_error: true }));
}

#[test]
fn fetch_without_cache_and_failures() {
    let (s, a) = FetchState::Idle.next(false, FetchEvent::Started);
    assert_eq!((s, a), (FetchState::Transferring, FetchAction::Transfer));
    assert_eq!(s.next(false, FetchEvent::TransferFailed).1, FetchAction::Fail(FetchError::TransferError));
    let (e, _) = s.next(false, FetchEvent::TransferOk);
    assert_eq!(e.next(false, FetchEvent::ExtractFailed).1, FetchAction::Fail(FetchError::ArchiveError));
    assert_eq!(e.next(false, FetchEvent::ExtractOk), (FetchState::Done, FetchAction::Deliver { from_cache: false, cache_error: false }));
    let (r, _) = FetchState::Idle.next(true, FetchEvent::Started);
    assert_eq!(r.next(true, FetchEvent::CacheReadFailed).1, FetchAction::Transfer);
    assert_eq!(FetchState::Done.next(true, FetchEvent::CacheHit), (FetchState::Done, FetchAction::Nothing));
}
