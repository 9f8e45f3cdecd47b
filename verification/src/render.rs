use vstd::prelude::*;

use crate::scrim::{LookingForScrim, RankRange, ScrimView};
use crate::session::{control_id, control_id_seq, ScrimMsg, ScrimState, SessionAction};
use crate::strutil::{digit_char, i64_to_string, spec_idec, spec_udec, u64_to_string};

verus! {

// ---------------------------------------------------------------------------
// Rank display. Ranks are shown in thousands with the fraction trimmed of
// trailing zeros: 4300 points is `4.3k`, 4000 is `4k`, 4005 is `4.005k`.
// ---------------------------------------------------------------------------

/// The fractional digits of a rank in points, zero-padded to thousandths
/// and then stripped of trailing zeros.
pub open spec fn fraction_seq(rem: int) -> Seq<char> {
    let h = rem / 100;
    let t = (rem / 10) % 10;
    let o = rem % 10;
    if o != 0 {
        seq![digit_char(h), digit_char(t), digit_char(o)]
    } else if t != 0 {
        seq![digit_char(h), digit_char(t)]
    } else {
        seq![digit_char(h)]
    }
}

/// A rank in points written in thousands, like `4.3k`.
pub open spec fn rank_points_seq(v: int) -> Seq<char> {
    if v % 1000 == 0 {
        spec_udec(v / 1000) + "k"@
    } else {
        spec_udec(v / 1000) + "."@ + fraction_seq(v % 1000) + "k"@
    }
}

/// A rank interval: one rank when it collapses to a point, else both ends
/// joined by a dash.
pub open spec fn rank_range_seq(start: int, end: int) -> Seq<char> {
    if start == end {
        rank_points_seq(start)
    } else {
        rank_points_seq(start) + "-"@ + rank_points_seq(end)
    }
}

/// Writes a rank in points in thousands.
fn rank_points_string(v: u32) -> (r: String)
    ensures
        r@ == rank_points_seq(v as int),
{
    let whole = v / 1000;
    let rem = v % 1000;
    let mut s = u64_to_string(whole as u64);
    if rem != 0 {
        s.append(".");
        let h = rem / 100;
        let t = (rem / 10) % 10;
        let o = rem % 10;
        s.append(u64_to_string(h as u64).as_str());
        if o != 0 {
            s.append(u64_to_string(t as u64).as_str());
            s.append(u64_to_string(o as u64).as_str());
        } else if t != 0 {
            s.append(u64_to_string(t as u64).as_str());
        }
    }
    s.append("k");
    proof {
        assert(s@ =~= rank_points_seq(v as int));
    }
    s
}

impl RankRange {
    /// The interval as shown to users.
    pub fn to_display_string(&self) -> (r: String)
        ensures
            r@ == rank_range_seq(self.start as int, self.end as int),
    {
        if self.start == self.end {
            rank_points_string(self.start)
        } else {
            let mut s = rank_points_string(self.start);
            s.append("-");
            s.append(rank_points_string(self.end).as_str());
            proof {
                assert(s@ =~= rank_range_seq(self.start as int, self.end as int));
            }
            s
        }
    }
}

// ---------------------------------------------------------------------------
// Request lines. A request is summarized as region, platform and rank, and
// — unless it shares its time with the request it is shown against — its
// time as chat timestamp markup, with a relative form when it is less than
// a day away.
// ---------------------------------------------------------------------------

/// The value of an optional reference request.
pub open spec fn opt_view(other: Option<&LookingForScrim>) -> Option<ScrimView> {
    match other {
        Some(o) => Some(o@),
        None => None,
    }
}

/// The summary of a request: region, platform, rank interval, and its time
/// unless it coincides with the reference request's.
pub open spec fn scrim_meta_seq(v: ScrimView, other: Option<ScrimView>, now: int) -> Seq<char> {
    let base = v.region.spec_name() + "/"@ + v.platform.spec_name() + " "@ + rank_range_seq(
        v.rank_from,
        v.rank_to,
    );
    let show_time = match other {
        Some(o) => v.time != o.time,
        None => true,
    };
    if show_time {
        let with_abs = base + " on <t:"@ + spec_idec(v.time) + ":F>"@;
        if v.time - now < 86400 {
            with_abs + " (<t:"@ + spec_idec(v.time) + ":R>)"@
        } else {
            with_abs
        }
    } else {
        base
    }
}

/// Appends the summary of a request to the text being built.
pub fn write_scrim_meta(
    lfs: &LookingForScrim,
    other: Option<&LookingForScrim>,
    now: i64,
    content: &mut String,
)
    ensures
        final(content)@ == old(content)@ + scrim_meta_seq(lfs@, opt_view(other), now as int),
{
    content.append(lfs.region.name());
    content.append("/");
    content.append(lfs.platform.name());
    content.append(" ");
    content.append(lfs.range.to_display_string().as_str());
    let show_time = match other {
        Some(o) => lfs.time != o.time,
        None => true,
    };
    if show_time {
        content.append(" on <t:");
        content.append(i64_to_string(lfs.time).as_str());
        content.append(":F>");
        if (lfs.time as i128) - (now as i128) < 86400 {
            content.append(" (<t:");
            content.append(i64_to_string(lfs.time).as_str());
            content.append(":R>)");
        }
    }
    proof {
        assert(content@ =~= old(content)@ + scrim_meta_seq(lfs@, opt_view(other), now as int));
    }
}

/// The summary of a request preceded by who posted it: a user mention (and
/// the team name, if any) when the creator is shown, else just the team
/// name, if any.
pub open spec fn scrim_with_name_seq(
    v: ScrimView,
    other: Option<ScrimView>,
    show_creator: bool,
    now: int,
) -> Seq<char> {
    let prefix = if show_creator {
        "<@"@ + spec_idec(v.creator_id) + "> "@ + (match v.team_name {
            Some(n) => "(**"@ + n + "**) "@,
            None => Seq::<char>::empty(),
        })
    } else {
        match v.team_name {
            Some(n) => "**"@ + n + "** "@,
            None => Seq::<char>::empty(),
        }
    };
    prefix + scrim_meta_seq(v, other, now)
}

/// Appends the summary of a request with its poster to the text being
/// built.
pub fn write_scrim_with_name(
    lfs: &LookingForScrim,
    other: Option<&LookingForScrim>,
    show_creator: bool,
    now: i64,
    content: &mut String,
)
    ensures
        final(content)@ == old(content)@ + scrim_with_name_seq(
            lfs@,
            opt_view(other),
            show_creator,
            now as int,
        ),
{
    if show_creator {
        content.append("<@");
        content.append(i64_to_string(lfs.creator_id).as_str());
        content.append("> ");
        match &lfs.team_name {
            Some(n) => {
                content.append("(**");
                content.append(n.as_str());
                content.append("**) ");
            },
            None => {},
        }
    } else {
        match &lfs.team_name {
            Some(n) => {
                content.append("**");
                content.append(n.as_str());
                content.append("** ");
            },
            None => {},
        }
    }
    let ghost mid = content@;
    proof {
        assert(mid =~= old(content)@ + (if show_creator {
            "<@"@ + spec_idec(lfs@.creator_id) + "> "@ + (match lfs@.team_name {
                Some(n) => "(**"@ + n + "**) "@,
                None => Seq::<char>::empty(),
            })
        } else {
            match lfs@.team_name {
                Some(n) => "**"@ + n + "** "@,
                None => Seq::<char>::empty(),
            }
        }));
    }
    write_scrim_meta(lfs, other, now, content);
    proof {
        assert(content@ =~= old(content)@ + scrim_with_name_seq(
            lfs@,
            opt_view(other),
            show_creator,
            now as int,
        ));
    }
}

// ---------------------------------------------------------------------------
// Session messages. Each sub-flow renders to a text block and the controls
// the user may press next, per the state machine.
// ---------------------------------------------------------------------------

/// How a control is to be displayed.
#[derive(Clone, Copy, Debug, PartialEq, Eq, Structural)]
pub enum ButtonStyle {
    Primary,
    Secondary,
    Success,
    Danger,
}

/// A control to display under a message: its id, its label, its style.
pub struct ButtonSpec {
    pub custom_id: String,
    pub label: String,
    pub style: ButtonStyle,
}

/// The plain value of a control.
pub open spec fn button_view(b: ButtonSpec) -> (Seq<char>, Seq<char>, ButtonStyle) {
    (b.custom_id@, b.label@, b.style)
}

/// The accept controls for the first `count` candidates, in order.
pub open spec fn accept_buttons_seq(sid: int, index: int, count: int) -> Seq<
    (Seq<char>, Seq<char>, ButtonStyle),
>
    decreases count,
{
    if count <= 0 {
        Seq::empty()
    } else {
        accept_buttons_seq(sid, index, count - 1).push(
            (
                control_id_seq(sid, index, SessionAction::Accept((count - 1) as usize)),
                "Accept match "@ + spec_udec(count),
                ButtonStyle::Success,
            ),
        )
    }
}

/// The heading of a sub-flow: the team name, if any, then the request's
/// summary with its time.
pub open spec fn title_seq(v: ScrimView, now: int) -> Seq<char> {
    "## "@ + (match v.team_name {
        Some(n) => n + ": "@,
        None => Seq::<char>::empty(),
    }) + scrim_meta_seq(v, None, now) + "\n"@
}

/// One candidate line: its number, the candidate with its poster, and a
/// note when the candidate has already picked someone (which, in a shown
/// list, is the viewer).
pub open spec fn candidate_line_seq(k: int, c: ScrimView, v: ScrimView, now: int) -> Seq<char> {
    spec_udec(k + 1) + ". "@ + scrim_with_name_seq(c, Some(v), true, now) + (if c.match_id is Some {
        " (picked you)"@
    } else {
        Seq::<char>::empty()
    }) + "\n"@
}

/// The candidate lines for the first `upto` candidates, in order.
pub open spec fn candidate_lines_seq(
    matches: Seq<(int, ScrimView)>,
    v: ScrimView,
    now: int,
    upto: int,
) -> Seq<char>
    decreases upto,
{
    if upto <= 0 {
        Seq::empty()
    } else {
        candidate_lines_seq(matches, v, now, upto - 1) + candidate_line_seq(
            upto - 1,
            matches[upto - 1].1,
            v,
            now,
        )
    }
}

/// The body of a sub-flow message, by state.
pub open spec fn body_seq(st: crate::session::ScrimStateView, v: ScrimView, now: int) -> Seq<
    char,
> {
    match st {
        crate::session::ScrimStateView::Looking { previous_revoked, matches } => (
        if previous_revoked {
            "Your previous partner picked someone else.\n"@
        } else {
            Seq::<char>::empty()
        }) + (if matches.len() == 0 {
            "No matches found. Try again later\n"@
        } else {
            "### Potential matches:\n"@ + candidate_lines_seq(matches, v, now, matches.len() as int)
        }),
        crate::session::ScrimStateView::Matched(w) => "Matched with "@ + scrim_with_name_seq(
            w,
            Some(v),
            true,
            now,
        ) + "\n"@ + "Remember to message them about the details :)"@,
        crate::session::ScrimStateView::Cancelled => "Scrim cancelled and removed from matchmaker"@,
    }
}

/// The controls of a sub-flow message, by state.
pub open spec fn buttons_seq(st: crate::session::ScrimStateView, sid: int, index: int) -> Seq<
    (Seq<char>, Seq<char>, ButtonStyle),
> {
    match st {
        crate::session::ScrimStateView::Looking { matches, .. } => accept_buttons_seq(
            sid,
            index,
            matches.len() as int,
        ).push((control_id_seq(sid, index, SessionAction::Refresh), "Refresh"@, ButtonStyle::Primary))
            .push(
            (control_id_seq(sid, index, SessionAction::Cancel), "Cancel"@, ButtonStyle::Danger),
        ),
        crate::session::ScrimStateView::Matched(_) => Seq::empty().push(
            (control_id_seq(sid, index, SessionAction::Revoke), "Revoke"@, ButtonStyle::Danger),
        ),
        crate::session::ScrimStateView::Cancelled => Seq::empty().push(
            (control_id_seq(sid, index, SessionAction::Restore), "Restore"@, ButtonStyle::Primary),
        ),
    }
}


/// Appends the candidate lines and accept controls for a candidate list.
#[verifier::rlimit(60)]
fn render_candidates(
    matches: &Vec<(i128, LookingForScrim)>,
    scrim: &LookingForScrim,
    sid: u64,
    index: usize,
    now: i64,
    content: &mut String,
    buttons: &mut Vec<ButtonSpec>,
)
    ensures
        final(content)@ == old(content)@ + candidate_lines_seq(
            crate::matching::mapped(matches@),
            scrim@,
            now as int,
            matches@.len() as int,
        ),
        final(buttons)@.map_values(|b: ButtonSpec| button_view(b)) =~= old(buttons)@.map_values(
            |b: ButtonSpec| button_view(b),
        ) + accept_buttons_seq(sid as int, index as int, matches@.len() as int),
{
    let ghost mv = crate::matching::mapped(matches@);
    let ghost base = old(content)@;
    let ghost base_buttons = old(buttons)@.map_values(|b: ButtonSpec| button_view(b));
    let n = matches.len();
    let mut k: usize = 0;
    proof {
        assert(content@ =~= base + candidate_lines_seq(mv, scrim@, now as int, 0));
        assert(buttons@.map_values(|b: ButtonSpec| button_view(b)) =~= base_buttons
            + accept_buttons_seq(sid as int, index as int, 0));
    }
    while k < n
        invariant
            n == matches@.len(),
            k <= n,
            mv == crate::matching::mapped(matches@),
            base_buttons == old(buttons)@.map_values(|b: ButtonSpec| button_view(b)),
            mv.len() == n,
            forall|i: int| 0 <= i < n ==> (#[trigger] mv[i]).1 == matches@[i].1@,
            content@ =~= base + candidate_lines_seq(mv, scrim@, now as int, k as int),
            buttons@.map_values(|b: ButtonSpec| button_view(b)) =~= base_buttons
                + accept_buttons_seq(sid as int, index as int, k as int),
        decreases n - k,
    {
        let ghost before = content@;
        let ghost buttons_before = buttons@;
        content.append(u64_to_string((k as u64) + 1).as_str());
        content.append(". ");
        let other = &matches[k].1;
        write_scrim_with_name(other, Some(scrim), true, now, content);
        if other.match_id.is_some() {
            content.append(" (picked you)");
        }
        content.append("\n");
        let accept = SessionAction::Accept(k);
        let mut label = String::from_str("Accept match ");
        label.append(u64_to_string((k as u64) + 1).as_str());
        buttons.push(
            ButtonSpec {
                custom_id: control_id(sid, index, &accept),
                label,
                style: ButtonStyle::Success,
            },
        );
        proof {
            assert(mv[k as int].1 == other@);
            assert(content@ =~= before + candidate_line_seq(
                k as int,
                mv[k as int].1,
                scrim@,
                now as int,
            ));
            assert(content@ =~= base + candidate_lines_seq(mv, scrim@, now as int, k + 1));
            assert(buttons@.map_values(|b: ButtonSpec| button_view(b)) =~= buttons_before.map_values(
                |b: ButtonSpec| button_view(b),
            ).push(
                (
                    control_id_seq(sid as int, index as int, accept),
                    "Accept match "@ + spec_udec(k + 1),
                    ButtonStyle::Success,
                ),
            ));
            assert(buttons@.map_values(|b: ButtonSpec| button_view(b)) =~= base_buttons
                + accept_buttons_seq(sid as int, index as int, k + 1));
        }
        k = k + 1;
    }
}

/// Renders one sub-flow of a session: the message text and the controls to
/// display under it.
#[verifier::rlimit(100)]
pub fn render_scrim_msg(msg: &ScrimMsg, sid: u64, now: i64) -> (r: (String, Vec<ButtonSpec>))
    ensures
        r.0@ == title_seq(msg.scrim@, now as int) + body_seq(msg.state@, msg.scrim@, now as int),
        r.1@.map_values(|b: ButtonSpec| button_view(b)) =~= buttons_seq(
            msg.state@,
            sid as int,
            msg.index as int,
        ),
{
    let mut content = String::new();
    let mut buttons: Vec<ButtonSpec> = Vec::new();
    content.append("## ");
    match &msg.scrim.team_name {
        Some(n) => {
            content.append(n.as_str());
            content.append(": ");
        },
        None => {},
    }
    write_scrim_meta(&msg.scrim, None, now, &mut content);
    content.append("\n");
    proof {
        assert(content@ =~= title_seq(msg.scrim@, now as int));
    }
    let ghost title = content@;
    match &msg.state {
        ScrimState::Looking { previous_revoked, matches } => {
            if *previous_revoked {
                content.append("Your previous partner picked someone else.\n");
            }
            let ghost after_notice = content@;
            if matches.len() == 0 {
                content.append("No matches found. Try again later\n");
            } else {
                content.append("### Potential matches:\n");
                render_candidates(matches, &msg.scrim, sid, msg.index, now, &mut content, &mut buttons);
                proof {
                    assert(content@ =~= after_notice + "### Potential matches:\n"@
                        + candidate_lines_seq(
                        crate::matching::mapped(matches@),
                        msg.scrim@,
                        now as int,
                        matches@.len() as int,
                    ));
                }
            }
            let refresh_id = control_id(sid, msg.index, &SessionAction::Refresh);
            buttons.push(
                ButtonSpec {
                    custom_id: refresh_id,
                    label: String::from_str("Refresh"),
                    style: ButtonStyle::Primary,
                },
            );
            let cancel_id = control_id(sid, msg.index, &SessionAction::Cancel);
            buttons.push(
                ButtonSpec {
                    custom_id: cancel_id,
                    label: String::from_str("Cancel"),
                    style: ButtonStyle::Danger,
                },
            );
            proof {
                assert(content@ =~= title + body_seq(msg.state@, msg.scrim@, now as int));
                assert(buttons@.map_values(|b: ButtonSpec| button_view(b)) =~= buttons_seq(
                    msg.state@,
                    sid as int,
                    msg.index as int,
                ));
            }
        },
        ScrimState::Matched(with) => {
            content.append("Matched with ");
            write_scrim_with_name(with, Some(&msg.scrim), true, now, &mut content);
            content.append("\n");
            content.append("Remember to message them about the details :)");
            let revoke_id = control_id(sid, msg.index, &SessionAction::Revoke);
            buttons.push(
                ButtonSpec {
                    custom_id: revoke_id,
                    label: String::from_str("Revoke"),
                    style: ButtonStyle::Danger,
                },
            );
            proof {
                assert(content@ =~= title + body_seq(msg.state@, msg.scrim@, now as int));
                assert(buttons@.map_values(|b: ButtonSpec| button_view(b)) =~= buttons_seq(
                    msg.state@,
                    sid as int,
                    msg.index as int,
                ));
            }
        },
        ScrimState::Cancelled => {
            content.append("Scrim cancelled and removed from matchmaker");
            let restore_id = control_id(sid, msg.index, &SessionAction::Restore);
            buttons.push(
                ButtonSpec {
                    custom_id: restore_id,
                    label: String::from_str("Restore"),
                    style: ButtonStyle::Primary,
                },
            );
            proof {
                assert(content@ =~= title + body_seq(msg.state@, msg.scrim@, now as int));
                assert(buttons@.map_values(|b: ButtonSpec| button_view(b)) =~= buttons_seq(
                    msg.state@,
                    sid as int,
                    msg.index as int,
                ));
            }
        },
    }
    (content, buttons)
}

} // verus!
