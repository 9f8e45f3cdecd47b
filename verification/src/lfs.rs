use vstd::prelude::*;

use crate::dateguard::{date_input_ok, date_input_safe};
use crate::error::Error;
use crate::rank::{parse_rank_range, spec_parse_rank_range};
use crate::scrim::{LookingForScrim, Platform, Region, ScrimView};
use crate::store::{has_user, with_id, ScrimStore, UserStore};
use crate::strutil::str_eq;
use crate::timeapi::{
    civil_to_utc, local_civil, local_civil_of, parse_date_relative, parse_time_relative,
    parsed_date_of, parsed_time_of, utc_of, CivilDateTime,
};
use vstd::utf8::is_ascii_chars;

verus! {

/// The timezone stored for a user (meaningful under `has_user`).
pub open spec fn tz_of(s: Seq<(int, Seq<char>)>, user: int) -> Seq<char> {
    s[choose|i: int| 0 <= i < s.len() && s[i].0 == user].1
}

/// How a scheduling input resolves against a stored timezone and the
/// current instant: the current civil time in the zone anchors the date
/// (today when none is written) and the time of day (required), and the
/// combined civil time converts back to a UTC instant. Non-ASCII text, a
/// base outside the calendar's working years, and text shapes the date
/// recognizer aborts on are invalid — but a missing time of day is
/// reported first, whatever else the text holds.
pub open spec fn spec_resolve_time(tz: Seq<char>, text: Seq<char>, now: int) -> Result<i64, Error> {
    match local_civil_of(tz, now) {
        None => Err(Error::InvalidTimezone),
        Some(local) => if !is_ascii_chars(text) || !(-9999 <= local.year <= 9999) {
            Err(Error::InvalidTime)
        } else {
            match parsed_time_of(text, local.hour as int, local.minute as int, local.second as int) {
                None => Err(Error::NoTimeSpecified),
                Some(tod) => if !date_input_safe(text) {
                    Err(Error::InvalidTime)
                } else {
                    let date = match parsed_date_of(text, local.year as int, local.month as int, local.day as int) {
                        Some(d) => d,
                        None => (local.year, local.month, local.day),
                    };
                    let civil = CivilDateTime {
                        year: date.0,
                        month: date.1,
                        day: date.2,
                        hour: tod.0,
                        minute: tod.1,
                        second: tod.2,
                    };
                    match utc_of(tz, civil) {
                        None => Err(Error::InvalidTime),
                        Some(ts) => Ok(ts),
                    }
                },
            }
        },
    }
}

/// Resolves a free-form scheduling input to a UTC instant, in the user's
/// zone, relative to now.
pub fn resolve_scrim_time(tz: &str, text: &str, now: i64) -> (r: Result<i64, Error>)
    ensures
        r == spec_resolve_time(tz@, text@, now as int),
{
    let local = match local_civil(tz, now) {
        Some(l) => l,
        None => {
            return Err(Error::InvalidTimezone);
        },
    };
    if !text.is_ascii() || local.year < -9999 || local.year > 9999 {
        // The recognizers parse their captures as ASCII, and relative dates
        // from a base near the calendar's limits cannot be formed.
        return Err(Error::InvalidTime);
    }
    let tod = match parse_time_relative(text, local) {
        Some(t) => t,
        None => {
            return Err(Error::NoTimeSpecified);
        },
    };
    if !date_input_ok(text) {
        // The date recognizer aborts on this shape of text.
        return Err(Error::InvalidTime);
    }
    let date = match parse_date_relative(text, local) {
        Some(d) => d,
        None => (local.year, local.month, local.day),
    };
    let civil = CivilDateTime {
        year: date.0,
        month: date.1,
        day: date.2,
        hour: tod.0,
        minute: tod.1,
        second: tod.2,
    };
    match civil_to_utc(tz, civil) {
        Some(ts) => Ok(ts),
        None => Err(Error::InvalidTime),
    }
}

/// Builds a looking-for-scrim request from the command's inputs: the user
/// must have a timezone stored, the scheduling input must resolve to an
/// instant in that zone, and the rank input must be a well-formed range.
/// The record is returned unstored, with no id assigned yet.
pub fn prepare_looking_for_scrim(
    users: &UserStore,
    creator: i64,
    region: Region,
    platform: Platform,
    range: &str,
    time: &str,
    team_name: Option<String>,
    now: i64,
) -> (r: Result<LookingForScrim, Error>)
    requires
        users.wf(),
    ensures
        !has_user(users@, creator as int) ==> (r matches Err(e) && e is MissingTimezone),
        has_user(users@, creator as int) ==> (match spec_resolve_time(
            tz_of(users@, creator as int),
            time@,
            now as int,
        ) {
            Err(e) => r matches Err(e2) && e2 == e,
            Ok(ts) => match spec_parse_rank_range(range@) {
                Some(p) => {
                    if p.0 <= p.1 && p.1 <= u32::MAX {
                        r matches Ok(lfs) && lfs@ == (ScrimView {
                            id: 0,
                            creator_id: creator as int,
                            team_name: match team_name {
                                Some(ref n) => Some(n@),
                                None => None,
                            },
                            region: region,
                            platform: platform,
                            rank_from: p.0,
                            rank_to: p.1,
                            time: ts as int,
                            match_id: None,
                            cancelled: false,
                        })
                    } else {
                        r matches Err(e) && e is InvalidRankRange
                    }
                },
                None => r matches Err(e) && e is InvalidRankRange,
            },
        }),
{
    let tzs = match users.get_timezone(creator) {
        Ok(z) => z,
        Err(e) => {
            return Err(e);
        },
    };
    proof {
        let ui = choose|i: int| 0 <= i < users@.len() && users@[i].0 == creator as int;
        assert(users@[ui].0 == creator as int);
        assert(tzs@ == tz_of(users@, creator as int));
    }
    let ts = match resolve_scrim_time(tzs.as_str(), time, now) {
        Ok(t) => t,
        Err(e) => {
            return Err(e);
        },
    };
    let rr = match parse_rank_range(range) {
        Ok(v) => v,
        Err(e) => {
            return Err(e);
        },
    };
    Ok(
        LookingForScrim {
            id: 0,
            creator_id: creator,
            team_name,
            region,
            platform,
            range: rr,
            time: ts,
            match_id: None,
            cancelled: false,
        },
    )
}

/// How the confirmation step of posting a request ends.
pub enum ConfirmOutcome {
    /// The user confirmed: the request was stored under the returned id.
    Confirmed(i32),
    /// The user declined: nothing was stored.
    Declined,
    /// The confirmation message expired with no answer: nothing was stored.
    TimedOut,
}

/// Applies the user's answer to the confirmation message of a prepared
/// request: only an explicit confirmation stores it.
pub fn lfs_confirm_step(store: &mut ScrimStore, lfs: LookingForScrim, response: Option<&str>) -> (r:
    ConfirmOutcome)
    requires
        old(store).wf(),
        old(store).spec_next_id() < i32::MAX,
    ensures
        final(store).wf(),
        response is None ==> r is TimedOut && final(store)@ == old(store)@,
        response matches Some(id) ==> (id@ == "confirm"@ ==> (r matches ConfirmOutcome::Confirmed(
            nid,
        ) && nid == old(store).spec_next_id() && final(store)@ =~= old(store)@.push(
            with_id(lfs@, nid as int),
        ))),
        response matches Some(id) ==> (id@ != "confirm"@ ==> r is Declined && final(store)@ == old(
            store,
        )@),
{
    match response {
        None => ConfirmOutcome::TimedOut,
        Some(cid) => {
            if str_eq(cid, "confirm") {
                let id = store.create_scrim(lfs);
                ConfirmOutcome::Confirmed(id)
            } else {
                ConfirmOutcome::Declined
            }
        },
    }
}

} // verus!
