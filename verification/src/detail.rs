//! Reading the RAID engine's report on a sub-array.

use vstd::prelude::*;
use crate::decimal::{parse_decimal, parsed};
use crate::error::PoolError;
use crate::pattern::{find_groups, group, group_text, groups_in};
use crate::text::{contains, join, joined, occurs_in, pieces, remove_char, split, texts, without};

verus! {

/// Represents a software RAID device (array).
#[derive(Debug, PartialEq, Eq)]
pub struct RaidDev {
    /// Devices active in the RAID array
    pub raid_devices: usize,
    /// Array creation time
    pub created_at: String,
    /// Array update time
    pub updated_at: String,
    /// RAID level (e.g. raid5)
    pub level: String,
    /// Total usable size of the RAID array
    pub full_size: usize,
    /// Used size of the RAID array
    pub used_size: usize,
    /// Total amount of devices in the raid array including ones that are not active.
    pub all_devices: usize,
    /// States of the RAID array
    pub state: Vec<String>,
    /// Amount of failed devices
    pub failed_devices: usize,
    /// Amount of active devices
    pub active_devices: usize,
    /// Amount of working devices
    pub working_devices: usize,
    /// Amount of spare devices
    pub spare_devices: usize,
    /// Array layout
    pub layout: String,
    /// Chunk size
    pub chunk_size: String,
    /// RAID device UUID
    pub uuid: String,
    /// Name of the RAID array
    pub name: String,
    /// Events
    pub events: usize,
}

/// What a `RaidDev` stands for.
pub struct RaidDevModel {
    pub raid_devices: usize,
    pub created_at: Seq<char>,
    pub updated_at: Seq<char>,
    pub level: Seq<char>,
    pub full_size: usize,
    pub used_size: usize,
    pub all_devices: usize,
    pub state: Seq<Seq<char>>,
    pub failed_devices: usize,
    pub active_devices: usize,
    pub working_devices: usize,
    pub spare_devices: usize,
    pub layout: Seq<char>,
    pub chunk_size: Seq<char>,
    pub uuid: Seq<char>,
    pub name: Seq<char>,
    pub events: usize,
}

impl DeepView for RaidDev {
    type V = RaidDevModel;

    open spec fn deep_view(&self) -> RaidDevModel {
        RaidDevModel {
            raid_devices: self.raid_devices,
            created_at: self.created_at@,
            updated_at: self.updated_at@,
            level: self.level@,
            full_size: self.full_size,
            used_size: self.used_size,
            all_devices: self.all_devices,
            state: texts(self.state@),
            failed_devices: self.failed_devices,
            active_devices: self.active_devices,
            working_devices: self.working_devices,
            spare_devices: self.spare_devices,
            layout: self.layout@,
            chunk_size: self.chunk_size@,
            uuid: self.uuid@,
            name: self.name@,
            events: self.events,
        }
    }
}

impl View for RaidDev {
    type V = RaidDevModel;

    open spec fn view(&self) -> RaidDevModel {
        self.deep_view()
    }
}

/// The patterns of the fields of the report, each with one group for the
/// value of its field.
pub const CREATED_AT: &'static str = r"Creation Time : (?P<created_at>.+)";

pub const LEVEL: &'static str = r"Raid Level : (?P<level>.+)";

pub const FULL_SIZE: &'static str = r"Array Size : (?P<full_size>\d+)[\(\)\d\s\.a-zA-Z]*";

pub const USED_SIZE: &'static str = r"Used Dev Size : (?P<used_size>\d+)[\(\)\d\s\.a-zA-Z]*";

pub const RAID_DEVICES: &'static str = r"Raid Devices : (?P<raid_devices>\d+)";

pub const ALL_DEVICES: &'static str = r"Total Devices : (?P<all_devices>\d+)[\sA-Za-z:]*";

pub const UPDATED_AT: &'static str = r"Update Time : (?P<updated_at>.+)";

pub const STATE: &'static str = r"State : (?P<state>.+)";

pub const ACTIVE_DEVICES: &'static str = r"Active Devices : (?P<active_devices>\d+)";

pub const WORKING_DEVICES: &'static str = r"Working Devices : (?P<working_devices>\d+)";

pub const FAILED_DEVICES: &'static str = r"Failed Devices : (?P<failed_devices>\d+)";

pub const SPARE_DEVICES: &'static str = r"Spare Devices : (?P<spare_devices>\d+)";

pub const LAYOUT: &'static str = r"Layout : (?P<layout>.+)";

pub const CHUNK_SIZE: &'static str = r"Chunk Size : (?P<chunk_size>.+)[\s:a-zA-Z]*";

pub const NAME: &'static str = r"Name : .*:(?P<name>\S+)[\sa-z\(\)]*";

pub const UUID: &'static str = r"UUID : (?P<uuid>.+)";

pub const EVENTS: &'static str = r"Events : (?P<events>.+)";

/// What may stand between two fields of the report.
pub const BETWEEN_FIELDS: &'static str = r"[\s.]*";

/// The number of groups in a match of the report's pattern: the whole match
/// and one group for each field.
pub const DETAIL_GROUPS: usize = 18;

/// The patterns of the fields of the report, in the order in which the
/// engine writes them; the group of each field has its place in this list,
/// counted from one.
pub open spec fn field_patterns() -> Seq<Seq<char>> {
    seq![
        CREATED_AT@,
        LEVEL@,
        FULL_SIZE@,
        USED_SIZE@,
        RAID_DEVICES@,
        ALL_DEVICES@,
        UPDATED_AT@,
        STATE@,
        ACTIVE_DEVICES@,
        WORKING_DEVICES@,
        FAILED_DEVICES@,
        SPARE_DEVICES@,
        LAYOUT@,
        CHUNK_SIZE@,
        NAME@,
        UUID@,
        EVENTS@,
    ]
}

/// The pattern of the whole report.
pub open spec fn detail_pattern_text() -> Seq<char> {
    joined(field_patterns(), BETWEEN_FIELDS@)
}

/// Builds the pattern of the whole report.
pub fn detail_pattern() -> (pattern: String)
    ensures
        pattern@ == detail_pattern_text(),
{
    let mut fields: Vec<String> = Vec::new();
    fields.push(CREATED_AT.to_owned());
    fields.push(LEVEL.to_owned());
    fields.push(FULL_SIZE.to_owned());
    fields.push(USED_SIZE.to_owned());
    fields.push(RAID_DEVICES.to_owned());
    fields.push(ALL_DEVICES.to_owned());
    fields.push(UPDATED_AT.to_owned());
    fields.push(STATE.to_owned());
    fields.push(ACTIVE_DEVICES.to_owned());
    fields.push(WORKING_DEVICES.to_owned());
    fields.push(FAILED_DEVICES.to_owned());
    fields.push(SPARE_DEVICES.to_owned());
    fields.push(LAYOUT.to_owned());
    fields.push(CHUNK_SIZE.to_owned());
    fields.push(NAME.to_owned());
    fields.push(UUID.to_owned());
    fields.push(EVENTS.to_owned());
    proof {
        assert(texts(fields@) =~= field_patterns());
    }
    join(&fields, BETWEEN_FIELDS)
}

/// The number that a captured group writes.
pub open spec fn group_count(groups: Seq<Option<Seq<char>>>, index: int) -> Option<usize> {
    match group_text(groups, index) {
        Some(text) => parsed(text),
        None => None,
    }
}

/// The states of an array: the text of the state field without its spaces,
/// split at the commas.
pub open spec fn states(field: Seq<char>) -> Seq<Seq<char>> {
    pieces(without(field, ' '), ',')
}

/// The record that the groups of a match of the report's pattern give:
/// every field must have taken part in the match, and every count must be
/// an unsigned decimal number that fits.
pub open spec fn detail_record(groups: Seq<Option<Seq<char>>>) -> Option<RaidDevModel> {
    if groups.len() == DETAIL_GROUPS && (forall|i: int| 1 <= i < 18 ==> (#[trigger] group_text(
        groups,
        i,
    )) is Some) && group_count(groups, 3) is Some && group_count(groups, 4) is Some && group_count(
        groups,
        5,
    ) is Some && group_count(groups, 6) is Some && group_count(groups, 9) is Some && group_count(
        groups,
        10,
    ) is Some && group_count(groups, 11) is Some && group_count(groups, 12) is Some && group_count(
        groups,
        17,
    ) is Some {
        Some(
            RaidDevModel {
                created_at: group_text(groups, 1).unwrap(),
                level: group_text(groups, 2).unwrap(),
                full_size: group_count(groups, 3).unwrap(),
                used_size: group_count(groups, 4).unwrap(),
                raid_devices: group_count(groups, 5).unwrap(),
                all_devices: group_count(groups, 6).unwrap(),
                updated_at: group_text(groups, 7).unwrap(),
                state: states(group_text(groups, 8).unwrap()),
                active_devices: group_count(groups, 9).unwrap(),
                working_devices: group_count(groups, 10).unwrap(),
                failed_devices: group_count(groups, 11).unwrap(),
                spare_devices: group_count(groups, 12).unwrap(),
                layout: group_text(groups, 13).unwrap(),
                chunk_size: group_text(groups, 14).unwrap(),
                name: group_text(groups, 15).unwrap(),
                uuid: group_text(groups, 16).unwrap(),
                events: group_count(groups, 17).unwrap(),
            },
        )
    } else {
        None
    }
}

/// The text of a field.
fn text_field(groups: &Vec<Option<String>>, index: usize) -> (text: Result<String, PoolError>)
    ensures
        match text {
            Ok(t) => group_text(groups.deep_view(), index as int) == Some(t@),
            Err(e) => e == PoolError::ParseError && group_text(groups.deep_view(), index as int)
                is None,
        },
{
    match group(groups, index) {
        Some(text) => Ok(text),
        None => Err(PoolError::ParseError),
    }
}

/// The number in a field.
fn count_field(groups: &Vec<Option<String>>, index: usize) -> (count: Result<usize, PoolError>)
    ensures
        match count {
            Ok(n) => group_count(groups.deep_view(), index as int) == Some(n),
            Err(e) => e == PoolError::ParseError && group_count(groups.deep_view(), index as int)
                is None,
        },
{
    match group(groups, index) {
        Some(text) => match parse_decimal(text.as_str()) {
            Some(n) => Ok(n),
            None => Err(PoolError::ParseError),
        },
        None => Err(PoolError::ParseError),
    }
}

/// Makes the record of a sub-array from the groups that the report's
/// pattern captured. A field that is missing, or a count that is no number,
/// is a parse error.
pub fn raid_dev_from_fields(groups: &Vec<Option<String>>) -> (record: Result<RaidDev, PoolError>)
    ensures
        match record {
            Ok(dev) => detail_record(groups.deep_view()) == Some(dev@),
            Err(e) => e == PoolError::ParseError && detail_record(groups.deep_view()) is None,
        },
{
    if groups.len() != DETAIL_GROUPS {
        return Err(PoolError::ParseError);
    }
    let created_at = text_field(groups, 1)?;
    let level = text_field(groups, 2)?;
    let full_size = count_field(groups, 3)?;
    let used_size = count_field(groups, 4)?;
    let raid_devices = count_field(groups, 5)?;
    let all_devices = count_field(groups, 6)?;
    let updated_at = text_field(groups, 7)?;
    let state_field = text_field(groups, 8)?;
    let active_devices = count_field(groups, 9)?;
    let working_devices = count_field(groups, 10)?;
    let failed_devices = count_field(groups, 11)?;
    let spare_devices = count_field(groups, 12)?;
    let layout = text_field(groups, 13)?;
    let chunk_size = text_field(groups, 14)?;
    let name = text_field(groups, 15)?;
    let uuid = text_field(groups, 16)?;
    let events = count_field(groups, 17)?;
    let squeezed = remove_char(state_field.as_str(), ' ');
    let state = split(squeezed.as_str(), ',');
    proof {
        let g = groups.deep_view();
        assert forall|i: int| 1 <= i < 18 implies (#[trigger] group_text(g, i)) is Some by {
            if i == 3 {
                assert(group_count(g, 3) is Some);
            } else if i == 4 {
                assert(group_count(g, 4) is Some);
            } else if i == 5 {
                assert(group_count(g, 5) is Some);
            } else if i == 6 {
                assert(group_count(g, 6) is Some);
            } else if i == 9 {
                assert(group_count(g, 9) is Some);
            } else if i == 10 {
                assert(group_count(g, 10) is Some);
            } else if i == 11 {
                assert(group_count(g, 11) is Some);
            } else if i == 12 {
                assert(group_count(g, 12) is Some);
            } else if i == 17 {
                assert(group_count(g, 17) is Some);
            }
        }
    }
    Ok(
        RaidDev {
            raid_devices,
            created_at,
            updated_at,
            level,
            full_size,
            used_size,
            all_devices,
            state,
            failed_devices,
            active_devices,
            working_devices,
            spare_devices,
            layout,
            chunk_size,
            uuid,
            name,
            events,
        },
    )
}

/// What reading a report comes to. Anything on standard error is the
/// engine's failure, and is handed on as it stands; a report that the
/// pattern does not match is a parse error.
pub open spec fn detail_outcome(
    record: Result<RaidDev, PoolError>,
    output: Seq<char>,
    diagnostic: Seq<char>,
) -> bool {
    if diagnostic.len() > 0 {
        record matches Err(PoolError::EngineError(text)) && text@ == diagnostic
    } else {
        match groups_in(detail_pattern_text(), output) {
            Some(groups) => match record {
                Ok(dev) => detail_record(groups) == Some(dev@),
                Err(e) => e == PoolError::ParseError && detail_record(groups) is None,
            },
            None => record == Err::<RaidDev, PoolError>(PoolError::ParseError),
        }
    }
}

/// Get details of a RAID array from what the engine wrote when asked for
/// them: its report on standard output, its complaints on standard error.
pub fn get_detail(output: &str, diagnostic: &str) -> (record: Result<RaidDev, PoolError>)
    ensures
        detail_outcome(record, output@, diagnostic@),
{
    if !diagnostic.is_empty() {
        return Err(PoolError::EngineError(diagnostic.to_owned()));
    }
    let pattern = detail_pattern();
    match find_groups(pattern.as_str(), output) {
        Some(groups) => raid_dev_from_fields(&groups),
        None => Err(PoolError::ParseError),
    }
}

/// Whether a partition is in a RAID array, from what the engine wrote when
/// asked for its report on the partition: it is where the report holds
/// the array's UUID.
pub fn is_part_in_raid_array(output: &str, diagnostic: &str) -> (member: Result<bool, PoolError>)
    ensures
        diagnostic@.len() > 0 ==> (member matches Err(PoolError::EngineError(text)) && text@
            == diagnostic@),
        diagnostic@.len() == 0 ==> member == Ok::<bool, PoolError>(occurs_in(output@, "MD_UUID"@)),
{
    if !diagnostic.is_empty() {
        return Err(PoolError::EngineError(diagnostic.to_owned()));
    }
    Ok(contains(output, "MD_UUID"))
}

} // verus!
