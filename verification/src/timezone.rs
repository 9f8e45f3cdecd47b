use vstd::prelude::*;

use crate::error::Error;
use crate::lfs::tz_of;
use crate::store::{has_user, UserStore};
use crate::timeapi::{format_at_zone, local_civil_of, tz_known, tz_valid, zone_format_of};

verus! {

/// The reply to a set timezone: the zone back-quoted, then the current
/// local time back-quoted.
pub open spec fn set_reply(zone: Seq<char>, now: int) -> Seq<char> {
    "Timezone set to `"@ + zone + "`. Current time: `"@ + zone_format_of(
        now,
        zone,
        "%d/%m/%Y %H:%M"@,
    ) + "`"@
}

/// The reply to a timezone query: likewise, for the stored zone.
pub open spec fn show_reply(zone: Seq<char>, now: int) -> Seq<char> {
    "Your Timezone is `"@ + zone + "`. Current time: `"@ + zone_format_of(
        now,
        zone,
        "%d/%m/%Y %H:%M"@,
    ) + "`"@
}

/// Sets or shows the user's timezone. With a zone given, an unknown name is
/// rejected and a known one stored (overwriting any earlier choice); with
/// none, the stored zone is shown. Either way the reply carries the zone
/// and the current local time there.
pub fn timezone(users: &mut UserStore, user: i64, zone: Option<String>, now: i64) -> (r: Result<
    String,
    Error,
>)
    requires
        old(users).wf(),
    ensures
        final(users).wf(),
        zone matches Some(z) ==> (!tz_known(z@) ==> ((r matches Err(e) && e is InvalidTimezone)
            && final(users)@ == old(users)@)),
        zone matches Some(z) ==> (tz_known(z@) ==> {
            &&& has_user(final(users)@, user as int)
            &&& forall|j: int|
                0 <= j < final(users)@.len() && (#[trigger] final(users)@[j]).0 == user
                    ==> final(users)@[j].1 == z@
            &&& forall|j: int|
                0 <= j < old(users)@.len() && (#[trigger] old(users)@[j]).0 != user
                    ==> final(users)@[j] == old(users)@[j]
            &&& (r matches Ok(m) ==> m@ == set_reply(z@, now as int))
            &&& (r matches Err(e) ==> e is InvalidTime)
            &&& (local_civil_of(z@, now as int) is Some ==> r is Ok)
        }),
        zone is None ==> final(users)@ == old(users)@ && (!has_user(old(users)@, user as int)
            ==> (r matches Err(e) && e is MissingTimezone)),
        zone is None ==> (has_user(old(users)@, user as int) ==> {
            let stored = tz_of(old(users)@, user as int);
            &&& (r matches Ok(m) ==> m@ == show_reply(stored, now as int))
            &&& (r matches Err(e) ==> e is InvalidTimezone)
            &&& (tz_known(stored) && local_civil_of(stored, now as int) is Some ==> r is Ok)
        }),
{
    match zone {
        Some(z) => {
            if !tz_valid(z.as_str()) {
                return Err(Error::InvalidTimezone);
            }
            let formatted = match format_at_zone(now, z.as_str(), "%d/%m/%Y %H:%M") {
                Some(f) => f,
                None => {
                    users.set_timezone(user, z);
                    return Err(Error::InvalidTime);
                },
            };
            let mut reply = String::from_str("Timezone set to `");
            reply.append(z.as_str());
            reply.append("`. Current time: `");
            reply.append(formatted.as_str());
            reply.append("`");
            proof {
                assert(reply@ =~= set_reply(z@, now as int));
            }
            users.set_timezone(user, z);
            Ok(reply)
        },
        None => {
            let stored = match users.get_timezone(user) {
                Ok(s) => s,
                Err(e) => {
                    return Err(e);
                },
            };
            proof {
                let ui = choose|i: int|
                    0 <= i < users@.len() && users@[i].0 == user as int;
                assert(users@[ui].0 == user as int);
                assert(stored@ == tz_of(users@, user as int));
            }
            let formatted = match format_at_zone(now, stored.as_str(), "%d/%m/%Y %H:%M") {
                Some(f) => f,
                None => {
                    return Err(Error::InvalidTimezone);
                },
            };
            let mut reply = String::from_str("Your Timezone is `");
            reply.append(stored.as_str());
            reply.append("`. Current time: `");
            reply.append(formatted.as_str());
            reply.append("`");
            proof {
                assert(reply@ =~= show_reply(stored@, now as int));
            }
            Ok(reply)
        },
    }
}

} // verus!
