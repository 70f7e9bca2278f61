//! Where a country's dataset comes from and where its text is cached, and the decisions of
//! a fetch: read the cache, transfer, extract, write back.
use crate::text::text_eq;
use vstd::prelude::*;
use vstd::string::StringExecFns;

verus! {

/// The two datasets of a country.
#[derive(Clone, Copy, Debug, PartialEq, Eq, Structural)]
pub enum Data {
    Postal,
    Gazetteer,
}

/// The upstream layout of a country identifier's files.
#[derive(Clone, Copy, Debug, PartialEq, Eq, Structural)]
pub enum VariantKind {
    /// A postal archive `<id>.zip` and a gazetteer archive `<id>.zip`.
    Standard,
    /// An extended postal archive `<id>.csv.zip` and no gazetteer.
    ExtendedCsvOnly,
}

pub const POSTAL_URL_BASE: &'static str = "http://download.geonames.org/export/zip";

pub const GAZETTEER_URL_BASE: &'static str = "https://download.geonames.org/export/dump";

/// The identifiers of the extended ("full") postal datasets.
pub open spec fn is_extended(country: Seq<char>) -> bool {
    country == "GB_full"@ || country == "UK_full"@ || country == "NL_full"@ || country == "CA_full"@
}

pub open spec fn variant_kind_of(country: Seq<char>) -> VariantKind {
    if is_extended(country) {
        VariantKind::ExtendedCsvOnly
    } else {
        VariantKind::Standard
    }
}

/// Classifies a country identifier once, for both the address of its files and whether a
/// gazetteer exists for it.
pub fn variant_kind(country: &str) -> (r: VariantKind)
    ensures
        r == variant_kind_of(country@),
{
    if text_eq(country, "GB_full") || text_eq(country, "UK_full") || text_eq(country, "NL_full")
        || text_eq(country, "CA_full") {
        VariantKind::ExtendedCsvOnly
    } else {
        VariantKind::Standard
    }
}

/// What can go wrong in loading a dataset.
#[derive(Clone, Copy, Debug, PartialEq, Eq, Structural)]
pub enum FetchError {
    /// A gazetteer was asked for an extended country identifier, which has none.
    UnsupportedCombination,
    /// The transfer failed.
    TransferError,
    /// The archive was corrupt or did not hold the expected entry.
    ArchiveError,
    /// The cache could not be read or written.
    CacheError,
}

/// The address of a country's postal archive.
pub fn get_postal_url(country: &str) -> (r: String)
    ensures
        r@ == POSTAL_URL_BASE@ + "/"@ + country@ + if is_extended(country@) {
            ".csv.zip"@
        } else {
            ".zip"@
        },
{
    let mut url = String::from_str(POSTAL_URL_BASE);
    url.append("/");
    url.append(country);
    match variant_kind(country) {
        VariantKind::ExtendedCsvOnly => url.append(".csv.zip"),
        VariantKind::Standard => url.append(".zip"),
    }
    url
}

/// The address of a country's gazetteer archive; extended identifiers have none.
pub fn get_gazetteer_url(country: &str) -> (r: Result<String, FetchError>)
    ensures
        is_extended(country@) ==> r == Err::<String, FetchError>(FetchError::UnsupportedCombination),
        !is_extended(country@) ==> (r matches Ok(u) && u@ == GAZETTEER_URL_BASE@ + "/"@ + country@
            + ".zip"@),
{
    match variant_kind(country) {
        VariantKind::ExtendedCsvOnly => Err(FetchError::UnsupportedCombination),
        VariantKind::Standard => {
            let mut url = String::from_str(GAZETTEER_URL_BASE);
            url.append("/");
            url.append(country);
            url.append(".zip");
            Ok(url)
        },
    }
}

/// Relies on `std::path::MAIN_SEPARATOR`, the platform's path separator: `/`, or `\\` on
/// Windows.
#[verifier::external_body]
pub fn get_os_separator() -> (r: String)
    ensures
        r@ == seq!['/'] || r@ == seq!['\\'],
{
    std::path::MAIN_SEPARATOR.to_string()
}

/// Where fetched text is cached, and whether it is.
pub struct CacheConfig {
    pub base_dir: String,
    pub disable_cache: bool,
}

pub open spec fn kind_name(data: Data) -> Seq<char> {
    match data {
        Data::Postal => "postal"@,
        Data::Gazetteer => "gazetteer"@,
    }
}

/// `<base>/<kind>`: the directory that holds one dataset kind's cached texts.
pub open spec fn kind_dir_of(base: Seq<char>, sep: Seq<char>, data: Data) -> Seq<char> {
    base + sep + kind_name(data)
}

/// `<base>/<kind>/<country>.txt`: the cache key of one country's text.
pub open spec fn cache_path_of(base: Seq<char>, sep: Seq<char>, data: Data, country: Seq<char>) -> Seq<
    char,
> {
    kind_dir_of(base, sep, data) + sep + country + ".txt"@
}

pub fn kind_cache_dir(base_dir: &str, sep: &str, data: Data) -> (r: String)
    ensures
        r@ == kind_dir_of(base_dir@, sep@, data),
{
    let mut dir = String::from_str(base_dir);
    dir.append(sep);
    match data {
        Data::Postal => dir.append("postal"),
        Data::Gazetteer => dir.append("gazetteer"),
    }
    dir
}

/// The name of the archive entry that holds a country's text.
pub fn entry_name(country: &str) -> (r: String)
    ensures
        r@ == country@ + ".txt"@,
{
    let mut name = String::from_str(country);
    name.append(".txt");
    name
}

/// The directories that invalidating the cache removes: one per dataset kind.
pub fn cache_dirs(base_dir: &str, sep: &str) -> (r: Vec<String>)
    ensures
        r@.len() == 2,
        r@[0]@ == kind_dir_of(base_dir@, sep@, Data::Postal),
        r@[1]@ == kind_dir_of(base_dir@, sep@, Data::Gazetteer),
{
    let mut dirs: Vec<String> = Vec::new();
    dirs.push(kind_cache_dir(base_dir, sep, Data::Postal));
    dirs.push(kind_cache_dir(base_dir, sep, Data::Gazetteer));
    dirs
}

/// Everything a fetch needs to know, decided before any I/O.
pub struct FetchPlan {
    pub url: String,
    pub entry_name: String,
    pub cache_dir: String,
    pub cache_path: String,
    pub use_cache: bool,
}

/// Plans the fetch of one country's dataset; a gazetteer for an extended identifier fails
/// at once, before any I/O.
pub fn plan_download(country: &str, data_type: Data, config: &CacheConfig, sep: &str) -> (r:
    Result<FetchPlan, FetchError>)
    ensures
        (data_type == Data::Gazetteer && is_extended(country@)) <==> r is Err,
        r matches Err(e) ==> e == FetchError::UnsupportedCombination,
        r matches Ok(p) ==> {
            &&& p.url@ == match data_type {
                Data::Postal => POSTAL_URL_BASE@ + "/"@ + country@ + if is_extended(country@) {
                    ".csv.zip"@
                } else {
                    ".zip"@
                },
                Data::Gazetteer => GAZETTEER_URL_BASE@ + "/"@ + country@ + ".zip"@,
            }
            &&& p.entry_name@ == country@ + ".txt"@
            &&& p.cache_dir@ == kind_dir_of(config.base_dir@, sep@, data_type)
            &&& p.cache_path@ == cache_path_of(config.base_dir@, sep@, data_type, country@)
            &&& p.use_cache == !config.disable_cache
        },
{
    let url = match data_type {
        Data::Postal => get_postal_url(country),
        Data::Gazetteer => match get_gazetteer_url(country) {
            Ok(u) => u,
            Err(e) => {
                return Err(e);
            },
        },
    };
    let cache_dir = kind_cache_dir(config.base_dir.as_str(), sep, data_type);
    let mut cache_path = kind_cache_dir(config.base_dir.as_str(), sep, data_type);
    cache_path.append(sep);
    cache_path.append(country);
    cache_path.append(".txt");
    Ok(
        FetchPlan {
            url,
            entry_name: entry_name(country),
            cache_dir,
            cache_path,
            use_cache: !config.disable_cache,
        },
    )
}

/// Where a fetch stands.
#[derive(Clone, Copy, Debug, PartialEq, Eq, Structural)]
pub enum FetchState {
    Idle,
    ReadingCache,
    Transferring,
    Extracting,
    WritingCache,
    Done,
    Failed,
}

/// What the outside world reports back to a fetch.
#[derive(Clone, Copy, Debug, PartialEq, Eq, Structural)]
pub enum FetchEvent {
    Started,
    CacheHit,
    CacheMiss,
    CacheReadFailed,
    TransferOk,
    TransferFailed,
    ExtractOk,
    ExtractFailed,
    WriteOk,
    WriteFailed,
}

/// What a fetch asks the outside world to do next.
#[derive(Clone, Copy, Debug, PartialEq, Eq, Structural)]
pub enum FetchAction {
    /// Read the cached text at the plan's cache path.
    ReadCache,
    /// Transfer the archive at the plan's address.
    Transfer,
    /// Take the plan's entry out of the transferred archive as text.
    Extract,
    /// Write the text to the plan's cache path.
    WriteCache,
    /// Hand the text to the caller; `cache_error` reports a failed write-back.
    Deliver { from_cache: bool, cache_error: bool },
    /// Give up with this error.
    Fail(FetchError),
    /// The event does not belong to this state: nothing to do.
    Nothing,
}

/// The decisions of a fetch: a cache read first when caching is on, a failed read taken as a
/// miss, a transfer and an extraction on a miss, a write-back when caching is on, and the
/// fetched text delivered even when the write-back fails.
pub open spec fn fetch_step(state: FetchState, use_cache: bool, event: FetchEvent) -> (
    FetchState,
    FetchAction,
) {
    match (state, event) {
        (FetchState::Idle, FetchEvent::Started) => if use_cache {
            (FetchState::ReadingCache, FetchAction::ReadCache)
        } else {
            (FetchState::Transferring, FetchAction::Transfer)
        },
        (FetchState::ReadingCache, FetchEvent::CacheHit) => (
            FetchState::Done,
            FetchAction::Deliver { from_cache: true, cache_error: false },
        ),
        (FetchState::ReadingCache, FetchEvent::CacheMiss) => (
            FetchState::Transferring,
            FetchAction::Transfer,
        ),
        (FetchState::ReadingCache, FetchEvent::CacheReadFailed) => (
            FetchState::Transferring,
            FetchAction::Transfer,
        ),
        (FetchState::Transferring, FetchEvent::TransferOk) => (
            FetchState::Extracting,
            FetchAction::Extract,
        ),
        (FetchState::Transferring, FetchEvent::TransferFailed) => (
            FetchState::Failed,
            FetchAction::Fail(FetchError::TransferError),
        ),
        (FetchState::Extracting, FetchEvent::ExtractOk) => if use_cache {
            (FetchState::WritingCache, FetchAction::WriteCache)
        } else {
            (FetchState::Done, FetchAction::Deliver { from_cache: false, cache_error: false })
        },
        (FetchState::Extracting, FetchEvent::ExtractFailed) => (
            FetchState::Failed,
            FetchAction::Fail(FetchError::ArchiveError),
        ),
        (FetchState::WritingCache, FetchEvent::WriteOk) => (
            FetchState::Done,
            FetchAction::Deliver { from_cache: false, cache_error: false },
        ),
        (FetchState::WritingCache, FetchEvent::WriteFailed) => (
            FetchState::Done,
            FetchAction::Deliver { from_cache: false, cache_error: true },
        ),
        _ => (state, FetchAction::Nothing),
    }
}

impl FetchState {
    /// The next state of a fetch and what to do, given what just happened.
    pub fn next(self, use_cache: bool, event: FetchEvent) -> (r: (FetchState, FetchAction))
        ensures
            r == fetch_step(self, use_cache, event),
    {
        match (self, event) {
            (FetchState::Idle, FetchEvent::Started) => if use_cache {
                (FetchState::ReadingCache, FetchAction::ReadCache)
            } else {
                (FetchState::Transferring, FetchAction::Transfer)
            },
            (FetchState::ReadingCache, FetchEvent::CacheHit) => (
                FetchState::Done,
                FetchAction::Deliver { from_cache: true, cache_error: false },
            ),
            (FetchState::ReadingCache, FetchEvent::CacheMiss) => (
                FetchState::Transferring,
                FetchAction::Transfer,
            ),
            (FetchState::ReadingCache, FetchEvent::CacheReadFailed) => (
                FetchState::Transferring,
                FetchAction::Transfer,
            ),
            (FetchState::Transferring, FetchEvent::TransferOk) => (
                FetchState::Extracting,
                FetchAction::Extract,
            ),
            (FetchState::Transferring, FetchEvent::TransferFailed) => (
                FetchState::Failed,
                FetchAction::Fail(FetchError::TransferError),
            ),
            (FetchState::Extracting, FetchEvent::ExtractOk) => if use_cache {
                (FetchState::WritingCache, FetchAction::WriteCache)
            } else {
                (FetchState::Done, FetchAction::Deliver { from_cache: false, cache_error: false })
            },
            (FetchState::Extracting, FetchEvent::ExtractFailed) => (
                FetchState::Failed,
                FetchAction::Fail(FetchError::ArchiveError),
            ),
            (FetchState::WritingCache, FetchEvent::WriteOk) => (
                FetchState::Done,
                FetchAction::Deliver { from_cache: false, cache_error: false },
            ),
            (FetchState::WritingCache, FetchEvent::WriteFailed) => (
                FetchState::Done,
                FetchAction::Deliver { from_cache: false, cache_error: true },
            ),
            _ => (self, FetchAction::Nothing),
        }
    }
}

/// After the cache is invalidated, a fetch with caching on transfers again: each country's
/// cache key lies inside one of the directories that invalidation removes, so the read that
/// follows misses, and a miss leads to a transfer.
pub proof fn lemma_invalidated_cache_transfers(
    base: Seq<char>,
    sep: Seq<char>,
    data: Data,
    country: Seq<char>,
)
    ensures
        ({
            let dir = kind_dir_of(base, sep, data);
            &&& dir == kind_dir_of(base, sep, Data::Postal) || dir == kind_dir_of(
                base,
                sep,
                Data::Gazetteer,
            )
            &&& cache_path_of(base, sep, data, country).subrange(0, (dir.len() + sep.len()) as int) == dir
                + sep
        }),
        fetch_step(FetchState::Idle, true, FetchEvent::Started) == (
            FetchState::ReadingCache,
            FetchAction::ReadCache,
        ),
        fetch_step(FetchState::ReadingCache, true, FetchEvent::CacheMiss).1 == FetchAction::Transfer,
{
    let dir = kind_dir_of(base, sep, data);
    assert(cache_path_of(base, sep, data, country).subrange(0, (dir.len() + sep.len()) as int) =~= dir
        + sep);
}

/// Caching off, a fetch never reads or writes the cache: from any state, no event leads to a
/// cache action.
pub proof fn lemma_disabled_cache_untouched(state: FetchState, event: FetchEvent)
    ensures
        fetch_step(state, false, event).1 != FetchAction::ReadCache,
        fetch_step(state, false, event).1 != FetchAction::WriteCache,
{
}

} // verus!
