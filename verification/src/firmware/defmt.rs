//! Following the log of a firmware.

use vstd::prelude::*;

use crate::bytes;
use crate::paths;

verus! {

/// Where a log statement stands in the firmware's source.
#[derive(Debug, PartialEq, Eq)]
pub struct LogLocation {
    /// The index that the firmware sends for the statement.
    pub index: u64,
    pub file: String,
    pub line: u64,
    pub module: String,
}

/// Where a frame of the log comes from: file, line and module, as far as they are known.
pub type LocationInfo = (Option<String>, Option<u32>, Option<String>);

/// Whether a file starts as an ELF file of either width does.
pub open spec fn looks_like_elf(file: Seq<u8>) -> bool {
    &&& file.len() >= 16
    &&& file[0] == 0x7f
    &&& file[1] == 0x45
    &&& file[2] == 0x4c
    &&& file[3] == 0x46
    &&& file[4] == 1 || file[4] == 2
}

/// The log of a file as the decoder reports it: the indices of its statements, and their locations
/// where these can be read.
pub type DecodedLog = (Vec<u64>, Option<Vec<LogLocation>>);

/// `defmt_decoder::Table::parse` on an ELF file, and of the table `Table::indices`, and
/// `Table::get_locations` on the same file: the indices of its log statements in ascending order and
/// their locations in the order of their indices, `None` where it has no log section, or an error,
/// which always comes for what does not start as an ELF file. Nothing more is stated: besides the
/// file's bytes the result depends on where they lie in the host's memory, since headers that are
/// not aligned there are an error, on how wide the host's addresses are, and on how the host writes
/// paths.
#[verifier::external_body]
fn decode_log(elf: &[u8]) -> (decoded: Result<Option<DecodedLog>, ()>)
    ensures
        !looks_like_elf(elf@) ==> decoded is Err,
        decoded matches Ok(Some(log)) ==> well_ordered(log),
{
    let location = |(index, place): (u64, defmt_decoder::Location)| LogLocation { index, file: place.file.display().to_string(), line: place.line, module: place.module };
    let log = |table: defmt_decoder::Table| (
        table.indices().map(|index| index as u64).collect(),
        table.get_locations(elf).ok().map(|places| places.into_iter().map(location).collect()),
    );
    defmt_decoder::Table::parse(elf).map(|table| table.map(log)).map_err(|_| ())
}

/// Whether the indices of a log and its locations come in order.
pub open spec fn well_ordered(log: DecodedLog) -> bool {
    &&& ascending(log.0@)
    &&& log.1 matches Some(locations) ==> ordered(locations@)
}

/// Whether indices rise.
pub open spec fn ascending(indices: Seq<u64>) -> bool {
    forall|i: int, j: int| 0 <= i < j < indices.len() ==> indices[i] < indices[j]
}

/// Whether locations come in the order of their indices, each of which occurs once.
pub open spec fn ordered(locations: Seq<LogLocation>) -> bool {
    forall|i: int, j: int|
        0 <= i < j < locations.len() ==> (#[trigger] locations[i]).index < (
        #[trigger] locations[j]).index
}

/// Whether there is a location for `index`.
pub open spec fn located(locations: Seq<LogLocation>, index: u64) -> bool {
    exists|i: int| 0 <= i < locations.len() && (#[trigger] locations[i]).index == index
}

/// Whether there is a location for every log statement.
pub open spec fn complete(indices: Seq<u64>, locations: Seq<LogLocation>) -> bool {
    forall|i: int| 0 <= i < indices.len() ==> located(locations, #[trigger] indices[i])
}

/// What can be done with the log of a firmware.
pub enum LogSetup {
    /// It can be followed; every log statement has a location.
    Ready(Vec<LogLocation>),
    /// The firmware does not log.
    NoLog,
    /// A log statement has no location.
    Incomplete,
    /// The file cannot be read.
    Malformed,
}

/// Where the location for `index` is in the list.
fn find(locations: &Vec<LogLocation>, index: u64) -> (found: Option<usize>)
    ensures
        match found {
            Some(i) => i < locations@.len() && locations@[i as int].index == index,
            None => !located(locations@, index),
        },
{
    for i in 0..locations.len()
        invariant
            forall|j: int| 0 <= j < i ==> (#[trigger] locations@[j]).index != index,
    {
        if locations[i].index == index {
            return Some(i);
        }
    }
    None
}

/// What can be done with a log of these statements and locations.
pub fn check_locations(indices: &Vec<u64>, locations: Vec<LogLocation>) -> (setup: LogSetup)
    ensures
        setup == if complete(indices@, locations@) {
            LogSetup::Ready(locations)
        } else {
            LogSetup::Incomplete
        },
{
    for i in 0..indices.len()
        invariant
            forall|j: int| 0 <= j < i ==> located(locations@, #[trigger] indices@[j]),
    {
        if find(&locations, indices[i]).is_none() {
            assert(!located(locations@, indices@[i as int]));
            return LogSetup::Incomplete;
        }
    }
    LogSetup::Ready(locations)
}

/// What the decoder finds in an ELF file.
pub enum LogParse {
    /// A log, with the indices of its statements, and their locations where these can be read.
    Found { indices: Vec<u64>, locations: Option<Vec<LogLocation>> },
    /// No log.
    NoLog,
    /// Nothing that it can read.
    Malformed,
}

/// What the decoder's report says.
pub fn parse_from(decoded: Result<Option<DecodedLog>, ()>) -> (parse: LogParse)
    ensures
        parse == match decoded {
            Ok(Some((indices, locations))) => LogParse::Found { indices, locations },
            Ok(None) => LogParse::NoLog,
            Err(_) => LogParse::Malformed,
        },
{
    match decoded {
        Ok(Some((indices, locations))) => LogParse::Found { indices, locations },
        Ok(None) => LogParse::NoLog,
        Err(_) => LogParse::Malformed,
    }
}

/// What the decoder finds in an ELF file. What that is depends on the host's memory as well as on
/// the file.
fn parse_log(elf: &[u8]) -> (parse: LogParse)
    ensures
        !looks_like_elf(elf@) ==> parse is Malformed,
        parse matches LogParse::Found { indices, locations } ==> well_ordered(
            (indices, locations),
        ),
{
    parse_from(decode_log(elf))
}

/// What can be done with the log that the decoder found.
pub fn setup_from(parse: LogParse) -> (setup: LogSetup)
    ensures
        setup == match parse {
            LogParse::Found { indices, locations: Some(locations) } => if complete(
                indices@,
                locations@,
            ) {
                LogSetup::Ready(locations)
            } else {
                LogSetup::Incomplete
            },
            LogParse::Found { locations: None, .. } => LogSetup::Malformed,
            LogParse::NoLog => LogSetup::NoLog,
            LogParse::Malformed => LogSetup::Malformed,
        },
{
    match parse {
        LogParse::Found { indices, locations } => match locations {
            Some(locations) => check_locations(&indices, locations),
            None => LogSetup::Malformed,
        },
        LogParse::NoLog => LogSetup::NoLog,
        LogParse::Malformed => LogSetup::Malformed,
    }
}

/// What can be done with the log of the firmware in an ELF file.
///
/// A file that does not start as an ELF file is malformed. Of another, what the decoder finds
/// decides, and that depends on the host's memory as well: see `setup_from`.
pub fn log_setup(elf: &[u8]) -> (setup: LogSetup)
    ensures
        !looks_like_elf(elf@) ==> setup is Malformed,
        setup matches LogSetup::Ready(locations) ==> ordered(locations@),
{
    setup_from(parse_log(elf))
}

/// Whether `info` is what is known of a frame from `place`; `relative` is its file as seen from the
/// current directory, where it is below it.
pub open spec fn describes(
    info: LocationInfo,
    place: LogLocation,
    relative: Option<Seq<char>>,
) -> bool {
    &&& info.0 matches Some(file) && file@ == match relative {
        Some(path) => path,
        None => place.file@,
    }
    &&& info.1 == Some(bytes::low32(place.line as int) as u32)
    &&& info.2 matches Some(module) && module@ == place.module@
}

/// What is known of a frame from `place`. The relative path is preferred to the full one.
pub fn location_from(place: &LogLocation, relative: Option<String>) -> (info: LocationInfo)
    ensures
        describes(info, *place, paths::text_view(relative)),
{
    let file = match relative {
        Some(path) => path,
        None => place.file.clone(),
    };
    proof {
        bytes::lemma_low32_of_u64(place.line);
    }
    (Some(file), Some(place.line as u32), Some(place.module.clone()))
}

/// What is known of the frame with the index `index`, for someone in `current_dir`.
pub fn location_info(locations: &Vec<LogLocation>, index: u64, current_dir: &str) -> (info:
    LocationInfo)
    ensures
        !located(locations@, index) ==> info == (None::<String>, None::<u32>, None::<String>),
        located(locations@, index) ==> exists|i: int, relative: Option<Seq<char>>|
            {
                &&& 0 <= i < locations@.len()
                &&& locations@[i].index == index
                &&& #[trigger] describes(info, locations@[i], relative)
                &&& paths::plain(locations@[i].file@) && paths::plain(current_dir@) ==> relative
                    == paths::seen_from(locations@[i].file@, current_dir@)
            },
{
    match find(locations, index) {
        Some(i) => {
            let relative = paths::relative_path(locations[i].file.as_str(), current_dir);
            let info = location_from(&locations[i], relative);
            assert(describes(info, locations@[i as int], paths::text_view(relative)));
            info
        },
        None => (None, None, None),
    }
}

/// How many bytes the firmware's log buffer holds.
pub const LOG_SIZE: u32 = 1024;

/// A byte of the log to fetch.
#[derive(Clone, Copy, Debug, PartialEq, Eq)]
pub struct LogFetch {
    /// Where it is in the core's memory.
    pub addr: u64,
    /// What to set the read index to afterwards.
    pub next_read: u32,
}

/// The read index after one byte was read.
pub open spec fn log_next(read: int) -> int {
    (read + 1) % LOG_SIZE as int
}

/// What to fetch of the log, by its two indices; `buffer` is where its bytes start. Nothing where
/// all was read.
pub fn run_defmt(read: u32, write: u32, buffer: u64) -> (fetch: Option<LogFetch>)
    requires
        read != write ==> read < u32::MAX && buffer + read <= u64::MAX,
    ensures
        fetch == if read == write {
            None
        } else {
            Some(LogFetch { addr: (buffer + read) as u64, next_read: log_next(read as int) as u32 })
        },
{
    if read == write {
        return None;
    }
    Some(LogFetch { addr: buffer + read as u64, next_read: (read + 1) % LOG_SIZE })
}

/// How many bytes of the log are unread.
pub open spec fn log_unread(read: int, write: int) -> int {
    (write - read) % LOG_SIZE as int
}

/// Every fetch leaves one byte less to read, so the reader catches up with the firmware.
pub proof fn each_fetch_catches_up(read: int, write: int)
    requires
        0 <= read < LOG_SIZE,
        0 <= write < LOG_SIZE,
        read != write,
    ensures
        0 <= log_next(read) < LOG_SIZE,
        log_unread(log_next(read), write) == log_unread(read, write) - 1,
        log_unread(write, write) == 0,
{
}

} // verus!
