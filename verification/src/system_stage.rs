//! Recurrence schedules: a calendar-naive interval between consecutive runs
//! of a stage, written `month:day:hour:minute:second` with each field in
//! [0, 255]. Months are approximated as 30 days by design.
use vstd::prelude::*;
use crate::text::{all_digits, digits_val, is_digit, lemma_digits_val_nonneg, lemma_digits_val_push, lemma_skip_step, split_on};

verus! {

/// Seconds in one schedule "month" (30 days, calendar-naive by design).
pub const MONTH_SECONDS: u64 = 2592000;
/// Seconds in one schedule day.
pub const DAY_SECONDS: u64 = 86400;
/// Seconds in one schedule hour.
pub const HOUR_SECONDS: u64 = 3600;
/// Seconds in one schedule minute.
pub const MINUTE_SECONDS: u64 = 60;

/// The five fields of a recurrence interval.
#[derive(Debug, Clone, Copy, PartialEq, Eq, Structural)]
pub struct Time {
    pub month: u8,
    pub day: u8,
    pub hour: u8,
    pub minute: u8,
    pub second: u8,
}

impl Time {
    pub fn new(month: u8, day: u8, hour: u8, minute: u8, second: u8) -> (t: Time)
        ensures
            t == (Time { month, day, hour, minute, second }),
    {
        Time { month, day, hour, minute, second }
    }
}

/// A recurrence schedule: the minimum spacing, in elapsed seconds, between
/// two consecutive runs of the stage it belongs to.
#[derive(Debug, Clone, Copy, PartialEq, Eq, Structural)]
pub struct Schedule(pub Time);

/// The total duration of a schedule in seconds:
/// `month * 2,592,000 + day * 86,400 + hour * 3,600 + minute * 60 + second`.
pub open spec fn schedule_seconds(t: Time) -> int {
    t.month * (MONTH_SECONDS as int) + t.day * (DAY_SECONDS as int) + t.hour * (HOUR_SECONDS as int)
        + t.minute * (MINUTE_SECONDS as int) + t.second
}





/// Whether `f` is one well-formed schedule field: a non-empty numeral
/// whose value is at most 255.
pub open spec fn field_ok(f: Seq<char>) -> bool {
    f.len() > 0 && all_digits(f) && digits_val(f) <= 255
}


/// The colon-separated fields of `s`. The empty text has one (empty) field.
pub open spec fn colon_fields(s: Seq<char>) -> Seq<Seq<char>> {
    split_on(s, ':', Seq::empty())
}

/// Whether `s` is a well-formed schedule text: exactly five colon-separated
/// integer fields, each in [0, 255].
pub open spec fn valid_schedule_text(s: Seq<char>) -> bool {
    colon_fields(s).len() == 5 && (forall|i: int|
        0 <= i < 5 ==> field_ok(#[trigger] colon_fields(s)[i]))
}

/// The five fields of a well-formed schedule text, in order
/// month : day : hour : minute : second.
pub open spec fn text_time(s: Seq<char>) -> Time {
    Time {
        month: digits_val(colon_fields(s)[0]) as u8,
        day: digits_val(colon_fields(s)[1]) as u8,
        hour: digits_val(colon_fields(s)[2]) as u8,
        minute: digits_val(colon_fields(s)[3]) as u8,
        second: digits_val(colon_fields(s)[4]) as u8,
    }
}




impl Schedule {
    pub fn new(time: Time) -> (s: Schedule)
        ensures
            s == Schedule(time),
    {
        Schedule(time)
    }

    /// Parses a schedule text `month:day:hour:minute:second`. Exactly five
    /// colon-separated integer fields, each in [0, 255], are accepted; any
    /// other field count or any non-integer field is rejected. Fields are
    /// never defaulted.
    pub fn from_str(s: &str) -> (r: Result<Schedule, String>)
        ensures
            r is Ok <==> valid_schedule_text(s@),
            r matches Ok(sch) ==> sch.0 == text_time(s@),
            r matches Err(e) ==> e@ == "Invalid schedule format"@,
    {
        let len: usize = s.unicode_len();
        let mut vals: Vec<u8> = Vec::new();
        let mut all_ok: bool = true;
        let mut cur_val: u16 = 0;
        let mut cur_len: usize = 0;
        let mut cur_ok: bool = true;
        let ghost mut completed: Seq<Seq<char>> = Seq::empty();
        let ghost mut cur: Seq<char> = Seq::empty();

        proof {
            assert(s@.skip(0) =~= s@);
            assert(completed + split_on(s@, ':', cur) =~= split_on(s@, ':', cur));
        }

        let mut i: usize = 0;
        while i < len
            invariant
                len == s@.len(),
                i <= len,
                colon_fields(s@) == completed + split_on(s@.skip(i as int), ':', cur),
                vals@.len() == completed.len(),
                cur.len() == cur_len,
                cur_len <= i,
                cur_ok <==> (all_digits(cur) && digits_val(cur) <= 255),
                cur_ok ==> cur_val as int == digits_val(cur),
                all_ok <==> (forall|k: int| 0 <= k < completed.len() ==> field_ok(#[trigger] completed[k])),
                all_ok ==> (forall|k: int|
                    0 <= k < completed.len() ==> (#[trigger] vals@[k]) as int == digits_val(completed[k])),
            decreases len - i,
        {
            let c = s.get_char(i);
            proof {
                lemma_skip_step(s@, i as int);
            }
            if c == ':' {
                if !(cur_ok && cur_len > 0) {
                    all_ok = false;
                }
                vals.push(if cur_ok { cur_val as u8 } else { 0u8 });
                proof {
                    assert(split_on(s@.skip(i as int), ':', cur) == seq![cur] + split_on(s@.skip(i + 1), ':', Seq::empty()));
                    assert(completed + (seq![cur] + split_on(s@.skip(i + 1), ':', Seq::empty()))
                        =~= completed.push(cur) + split_on(s@.skip(i + 1), ':', Seq::empty()));
                    if cur_ok && cur.len() > 0 {
                        lemma_digits_val_nonneg(cur);
                    }
                    let old_completed = completed;
                    let old_all_ok_spec = forall|k: int|
                        0 <= k < old_completed.len() ==> field_ok(#[trigger] old_completed[k]);
                    completed = completed.push(cur);
                    assert(completed[old_completed.len() as int] == cur);
                    assert(forall|k: int|
                        0 <= k < old_completed.len() ==> #[trigger] completed[k]
                            == old_completed[k]);
                    if old_all_ok_spec && cur_ok && cur.len() > 0 {
                        assert forall|k: int| 0 <= k < completed.len() implies field_ok(
                            #[trigger] completed[k],
                        ) by {
                            if k < old_completed.len() {
                                assert(completed[k] == old_completed[k]);
                            } else {
                                assert(completed[k] == cur);
                            }
                        }
                    } else {
                        if !old_all_ok_spec {
                            let k0 = choose|k: int|
                                0 <= k < old_completed.len() && !field_ok(#[trigger] old_completed[k]);
                            assert(completed[k0] == old_completed[k0]);
                            assert(!field_ok(completed[k0]));
                        } else {
                            assert(!field_ok(cur));
                            assert(!field_ok(completed[old_completed.len() as int]));
                        }
                    }
                    cur = Seq::empty();
                }
                cur_val = 0;
                cur_len = 0;
                cur_ok = true;
            } else {
                let b: u32 = c as u32;
                proof {
                    lemma_digits_val_push(cur, c);
                    assert(split_on(s@.skip(i as int), ':', cur) == split_on(s@.skip(i + 1), ':', cur.push(c)));
                }
                if cur_ok && 48 <= b && b <= 57 {
                    let d: u16 = (b - 48) as u16;
                    let nv: u16 = cur_val * 10 + d;
                    if nv > 255 {
                        cur_ok = false;
                    } else {
                        cur_val = nv;
                    }
                } else {
                    cur_ok = false;
                }
                proof {
                    cur = cur.push(c);
                }
                cur_len = cur_len + 1;
            }
            i = i + 1;
        }

        proof {
            assert(s@.skip(len as int) =~= Seq::<char>::empty());
            assert(split_on(Seq::<char>::empty(), ':', cur) == seq![cur]);
        }
        let ghost fields = colon_fields(s@);
        proof {
            assert(fields == completed + seq![cur]);
            assert(fields.len() == completed.len() + 1);
            assert(forall|k: int| 0 <= k < completed.len() ==> #[trigger] fields[k] == completed[k]);
            assert(fields[completed.len() as int] == cur);
        }
        let ok_last = cur_ok && cur_len > 0;
        if all_ok && ok_last && vals.len() == 4 {
            proof {
                lemma_digits_val_nonneg(cur);
                assert forall|k: int| 0 <= k < 5 implies field_ok(#[trigger] fields[k]) by {
                    if k < 4 {
                        assert(fields[k] == completed[k]);
                    } else {
                        assert(fields[k] == cur);
                    }
                }
                assert forall|k: int| 0 <= k < 4 implies 0 <= digits_val(completed[k]) by {
                    lemma_digits_val_nonneg(completed[k]);
                }
            }
            let t = Time::new(vals[0], vals[1], vals[2], vals[3], cur_val as u8);
            Ok(Schedule(t))
        } else {
            proof {
                if valid_schedule_text(s@) {
                    assert(fields.len() == 5);
                    assert(field_ok(fields[4]));
                    assert(fields[4] == cur);
                    assert forall|k: int| 0 <= k < completed.len() implies field_ok(
                        #[trigger] completed[k],
                    ) by {
                        assert(fields[k] == completed[k]);
                    }
                }
            }
            Err("Invalid schedule format".to_owned())
        }
    }

    /// The schedule's total duration in seconds, months counted as 30 days.
    pub fn get_as_u64(&self) -> (secs: u64)
        ensures
            secs == schedule_seconds(self.0),
    {
        let mut time: u64 = 0;
        time += self.0.month as u64 * MONTH_SECONDS;
        time += self.0.day as u64 * DAY_SECONDS;
        time += self.0.hour as u64 * HOUR_SECONDS;
        time += self.0.minute as u64 * MINUTE_SECONDS;
        time += self.0.second as u64;
        time
    }

    /// Whether only the seconds field may be non-zero.
    pub fn is_sec_only(&self) -> (r: bool)
        ensures
            r == (self.0.month == 0 && self.0.day == 0 && self.0.hour == 0 && self.0.minute == 0),
    {
        self.0.month == 0 && self.0.day == 0 && self.0.hour == 0 && self.0.minute == 0
    }

    /// Whether every field above the minutes is zero.
    pub fn is_min_only(&self) -> (r: bool)
        ensures
            r == (self.0.month == 0 && self.0.day == 0 && self.0.hour == 0),
    {
        self.0.month == 0 && self.0.day == 0 && self.0.hour == 0
    }

    /// Whether every field above the hours is zero.
    pub fn is_hour_only(&self) -> (r: bool)
        ensures
            r == (self.0.month == 0 && self.0.day == 0),
    {
        self.0.month == 0 && self.0.day == 0
    }

    /// Whether the months field is zero.
    pub fn is_day_only(&self) -> (r: bool)
        ensures
            r == (self.0.month == 0),
    {
        self.0.month == 0
    }

    /// Whether the days field is zero.
    pub fn is_month_only(&self) -> (r: bool)
        ensures
            r == (self.0.day == 0),
    {
        self.0.day == 0
    }
}

/// One scheduled stage of a job: a shell command and its recurrence.
#[derive(Debug, Clone)]
pub struct SStage {
    /// The command to be run on the schedule.
    pub command: String,
    /// When does this stage run?
    pub schedule: Schedule,
}

impl SStage {
    pub fn new(command: String, schedule: Schedule) -> (s: SStage)
        ensures
            s.command == command,
            s.schedule == schedule,
    {
        SStage { command, schedule }
    }
}

} // verus!
