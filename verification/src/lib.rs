//! A scrim (practice match) matchmaker: players post "looking for scrim"
//! requests with region, platform, rank range and time; the matcher ranks
//! candidate counterpart requests by a weighted difference score, and an
//! interactive session lets a user accept, cancel, revoke or restore
//! proposals against a soft-deleting request store.

pub mod cancel;
pub mod dateguard;
pub mod error;
pub mod lfs;
pub mod matching;
pub mod rank;
pub mod render;
pub mod scrim;
pub mod session;
pub mod store;
pub mod strutil;
pub mod timeapi;
pub mod timezone;
pub mod zones;

pub use cancel::{cancel_step, CancelEvent, CancelOutcome};
pub use error::Error;
pub use lfs::{lfs_confirm_step, prepare_looking_for_scrim, resolve_scrim_time, ConfirmOutcome};
pub use matching::find_matches;
pub use rank::{parse_rank, parse_rank_range};
pub use render::{render_scrim_msg, write_scrim_meta, write_scrim_with_name, ButtonSpec, ButtonStyle};
pub use scrim::{LookingForScrim, Platform, RankRange, Region, ScrimView};
pub use session::{control_id, parse_control_id, session_step, start_session, ScrimMsg, ScrimState, SessionAction, SessionEffect};
pub use store::{ScrimStore, UserStore};
pub use timeapi::CivilDateTime;
pub use timezone::timezone;
pub use zones::complete_zone;
