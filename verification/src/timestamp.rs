//! The times of source files, and the date that the composite's name carries.
//!
//! The name of a composite carries the local date of the latest of its
//! sources, not the date on which the merge ran: merging the same files again
//! gives the same name.

use vstd::prelude::*;
use crate::error::MergeError;
use crate::naming::{dated_name, is_date_token, is_merged_name, output_filename};

verus! {

/// A moment on the local clock: the seconds and nanoseconds that have passed
/// since the first moment of 1970 in universal time, and by how many seconds
/// the local clock is ahead of universal time at that moment.
#[derive(Debug, Clone, Copy, PartialEq, Eq, Structural)]
pub struct LocalDateTime {
    pub secs: i64,
    pub nanos: u32,
    pub utc_offset: i32,
}

impl LocalDateTime {
    /// Whether this moment comes after `other`. Two clocks that show different
    /// hours at one moment show the same moment.
    pub open spec fn is_after(self, other: LocalDateTime) -> bool {
        self.secs > other.secs || (self.secs == other.secs && self.nanos > other.nanos)
    }

    /// Whether this moment comes after `other`.
    pub fn later_than(&self, other: &LocalDateTime) -> (r: bool)
        ensures
            r == self.is_after(*other),
    {
        self.secs > other.secs || (self.secs == other.secs && self.nanos > other.nanos)
    }
}

/// The times that a file system keeps of one file: when it was created and
/// when it was last changed, each `None` where it is not kept or could not be
/// read.
#[derive(Debug, Clone, Copy)]
pub struct FileTimes {
    pub created: Option<LocalDateTime>,
    pub modified: Option<LocalDateTime>,
}

/// The time that counts for a file: that of its creation, or, where there is
/// none, that of its last change.
pub open spec fn preferred(times: FileTimes) -> Option<LocalDateTime> {
    if times.created is Some {
        times.created
    } else {
        times.modified
    }
}

/// The time that counts for each of the files.
pub open spec fn preferred_times(files: Seq<FileTimes>) -> Seq<Option<LocalDateTime>> {
    files.map_values(|times: FileTimes| preferred(times))
}

/// The time that counts for a file: that of its creation, or, where there is
/// none, that of its last change.
pub fn preferred_time(created: Option<LocalDateTime>, modified: Option<LocalDateTime>) -> (r:
    Option<LocalDateTime>)
    ensures
        r == (if created is Some {
            created
        } else {
            modified
        }),
        r == preferred(FileTimes { created, modified }),
{
    match created {
        Some(time) => Some(time),
        None => modified,
    }
}

/// The latest of the times that are known, the first of them where several
/// are equally late; `None` where none is known.
pub open spec fn latest(times: Seq<Option<LocalDateTime>>) -> Option<LocalDateTime>
    decreases times.len(),
{
    if times.len() == 0 {
        None
    } else {
        let before = latest(times.drop_last());
        match (times.last(), before) {
            (None, _) => before,
            (Some(t), None) => Some(t),
            (Some(t), Some(b)) => if t.is_after(b) {
                Some(t)
            } else {
                Some(b)
            },
        }
    }
}

/// Whether the time at place `k` is the latest of the times, and the first
/// that is so late: none of the times comes after it, and those that stand
/// before it in the list come before it in time.
pub open spec fn is_first_latest(times: Seq<Option<LocalDateTime>>, k: int) -> bool {
    &&& 0 <= k < times.len()
    &&& times[k] is Some
    &&& forall|i: int|
        0 <= i < times.len() && times[i] is Some ==> !(#[trigger] times[i]).unwrap().is_after(
            times[k].unwrap(),
        )
    &&& forall|i: int|
        0 <= i < k && times[i] is Some ==> times[k].unwrap().is_after(
            (#[trigger] times[i]).unwrap(),
        )
}

/// Where no time is known there is no latest time; anywhere else the latest
/// time is the first of the times after which none comes.
pub proof fn lemma_latest(times: Seq<Option<LocalDateTime>>)
    ensures
        latest(times) is None <==> (forall|i: int| 0 <= i < times.len() ==> times[i] is None),
        latest(times) is Some ==> exists|k: int|
            is_first_latest(times, k) && #[trigger] times[k] == latest(times),
    decreases times.len(),
{
    if times.len() > 0 {
        let head = times.drop_last();
        let n = times.len() - 1;
        lemma_latest(head);
        assert forall|i: int| 0 <= i < n implies head[i] == times[i] by {}
        if latest(head) is None {
            if times.last() is Some {
                assert(is_first_latest(times, n));
            }
        } else {
            let k = choose|k: int| is_first_latest(head, k) && #[trigger] head[k] == latest(head);
            let earlier = head[k].unwrap();
            if times.last() is Some && times.last().unwrap().is_after(earlier) {
                let t = times.last().unwrap();
                assert forall|i: int| 0 <= i < n && times[i] is Some implies t.is_after(
                    (#[trigger] times[i]).unwrap(),
                ) by {
                    assert(!head[i].unwrap().is_after(earlier));
                }
                assert(is_first_latest(times, n));
            } else {
                assert(times[k] == latest(times));
                assert forall|i: int| 0 <= i < times.len() && times[i] is Some implies !(
                #[trigger] times[i]).unwrap().is_after(earlier) by {
                    if i < n {
                        assert(!head[i].unwrap().is_after(earlier));
                    }
                }
                assert(is_first_latest(times, k));
            }
        }
    }
}

/// The latest of the times of the source files, one entry to the file. For
/// each file its time of creation counts, or, where there is none, that of its
/// last change; a file with neither is passed over.
///
/// Fails with `TimestampUnavailable` where no file has a time.
pub fn find_latest_creation_date(times: &Vec<FileTimes>) -> (r: Result<LocalDateTime, MergeError>)
    ensures
        match latest(preferred_times(times@)) {
            Some(t) => r == Ok::<LocalDateTime, MergeError>(t),
            None => r == Err::<LocalDateTime, MergeError>(MergeError::TimestampUnavailable),
        },
{
    let ghost counted = preferred_times(times@);
    let mut best: Option<LocalDateTime> = None;
    let mut i: usize = 0;
    assert(counted.take(0) =~= Seq::<Option<LocalDateTime>>::empty());
    while i < times.len()
        invariant
            i <= times.len(),
            counted == preferred_times(times@),
            best == latest(counted.take(i as int)),
        decreases times.len() - i,
    {
        assert(counted.take(i + 1).drop_last() =~= counted.take(i as int));
        match preferred_time(times[i].created, times[i].modified) {
            None => {},
            Some(t) => {
                match best {
                    None => {
                        best = Some(t);
                    },
                    Some(b) => {
                        if t.later_than(&b) {
                            best = Some(t);
                        }
                    },
                }
            },
        }
        i = i + 1;
    }
    assert(counted.take(i as int) =~= counted);
    match best {
        Some(t) => Ok(t),
        None => Err(MergeError::TimestampUnavailable),
    }
}

/// The date token `YY-MM-DD` of the local date at the moment given by its
/// seconds, nanoseconds and offset from universal time; `None` for a moment or
/// an offset outside what the calendar covers.
pub uninterp spec fn date_token_of(secs: int, nanos: int, utc_offset: int) -> Option<Seq<char>>;

/// Calls `chrono::FixedOffset::east_opt` and `chrono::DateTime::from_timestamp`,
/// moves the moment to that offset with `DateTime::with_timezone`, and formats
/// it with `DateTime::format` and the pattern `%y-%m-%d`. The date that comes
/// out depends on the three numbers alone and is named, not stated; what is
/// claimed beside the name is its shape: for that pattern the formatter writes
/// the year's last two digits, the month and the day as two digits each, with
/// a dash between them.
#[verifier::external_body]
fn format_date(time: LocalDateTime) -> (r: Option<String>)
    ensures
        match r {
            Some(token) => date_token_of(time.secs as int, time.nanos as int, time.utc_offset as int)
                == Some(token@) && is_date_token(token@),
            None => date_token_of(time.secs as int, time.nanos as int, time.utc_offset as int)
                is None,
        },
{
    let offset = chrono::FixedOffset::east_opt(time.utc_offset)?;
    let moment = chrono::DateTime::from_timestamp(time.secs, time.nanos)?;
    Some(moment.with_timezone(&offset).format("%y-%m-%d").to_string())
}

/// The name of the composite whose latest source has the time `time`: the
/// dated name with the token of that time's local date, where the calendar
/// gives one.
pub open spec fn output_name_of(time: LocalDateTime) -> Option<Seq<char>> {
    match date_token_of(time.secs as int, time.nanos as int, time.utc_offset as int) {
        Some(token) => if is_date_token(token) {
            Some(dated_name(token))
        } else {
            None
        },
        None => None,
    }
}

/// The name of a composite is one that `is_merged_file` recognises.
pub proof fn lemma_output_name_is_merged(time: LocalDateTime)
    ensures
        output_name_of(time) matches Some(name) ==> is_merged_name(name),
{
}

/// The name under which the composite is written, from the time of the latest
/// of its sources. The name is one that `is_merged_file` recognises.
///
/// Fails with `TimestampUnavailable` where the calendar does not cover the
/// time.
pub fn derive_output_name(time: LocalDateTime) -> (r: Result<String, MergeError>)
    ensures
        match r {
            Ok(name) => output_name_of(time) == Some(name@) && is_merged_name(name@),
            Err(e) => output_name_of(time) is None && e == MergeError::TimestampUnavailable,
        },
{
    match format_date(time) {
        Some(token) => Ok(output_filename(token.as_str())),
        None => Err(MergeError::TimestampUnavailable),
    }
}

} // verus!
