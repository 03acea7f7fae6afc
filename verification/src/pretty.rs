//! Clock-style rendering of durations for the final report.

use vstd::prelude::*;
use crate::media::Duration;
use crate::numfmt::{dec_rep2, dec_rep3, u64_string2, u64_string3};

verus! {

/// A duration that renders as a clock-style string: `mm:ss` for short
/// spans, `hh:mm:ss` once hours appear, and `hh:mm:ss.mmm` in the full
/// form a report carries.
#[derive(Debug, Clone, Copy, PartialEq, Eq, Structural)]
pub struct PrettyDuration(pub Duration);

impl PrettyDuration {
    /// Whole hours of the span.
    pub open spec fn spec_hours(self) -> int {
        self.0.spec_as_secs() / 3600
    }

    /// Minutes below the hour.
    pub open spec fn spec_minutes(self) -> int {
        (self.0.spec_as_secs() % 3600) / 60
    }

    /// Seconds below the minute.
    pub open spec fn spec_seconds(self) -> int {
        self.0.spec_as_secs() % 60
    }

    /// The full form `hh:mm:ss.mmm`.
    pub open spec fn spec_render_full(self) -> Seq<char> {
        dec_rep2(self.spec_hours() as nat) + ":"@ + dec_rep2(self.spec_minutes() as nat) + ":"@
            + dec_rep2(self.spec_seconds() as nat) + "."@ + dec_rep3(
            self.0.spec_subsec_millis() as nat,
        )
    }

    /// The brief form: `hh:mm:ss` when there are hours, else `mm:ss`.
    pub open spec fn spec_render_brief(self) -> Seq<char> {
        if self.spec_hours() > 0 {
            dec_rep2(self.spec_hours() as nat) + ":"@ + dec_rep2(self.spec_minutes() as nat) + ":"@
                + dec_rep2(self.spec_seconds() as nat)
        } else {
            dec_rep2(self.spec_minutes() as nat) + ":"@ + dec_rep2(self.spec_seconds() as nat)
        }
    }

    /// Renders the full form `hh:mm:ss.mmm`.
    pub fn render_full(&self) -> (r: String)
        ensures
            r@ == self.spec_render_full(),
    {
        let secs = self.0.as_secs();
        let hours = secs / 3600;
        let minutes = (secs % 3600) / 60;
        let seconds = secs % 60;
        let millis = self.0.subsec_millis();
        let r = u64_string2(hours).concat(":").concat(u64_string2(minutes).as_str()).concat(
            ":",
        ).concat(u64_string2(seconds).as_str()).concat(".").concat(u64_string3(millis).as_str());
        proof {
            assert(r@ =~= self.spec_render_full());
        }
        r
    }

    /// Renders the brief form: `hh:mm:ss` when there are hours, else
    /// `mm:ss`.
    pub fn render_brief(&self) -> (r: String)
        ensures
            r@ == self.spec_render_brief(),
    {
        let secs = self.0.as_secs();
        let hours = secs / 3600;
        let minutes = (secs % 3600) / 60;
        let seconds = secs % 60;
        if hours > 0 {
            let r = u64_string2(hours).concat(":").concat(u64_string2(minutes).as_str()).concat(
                ":",
            ).concat(u64_string2(seconds).as_str());
            proof {
                assert(r@ =~= self.spec_render_brief());
            }
            r
        } else {
            let r = u64_string2(minutes).concat(":").concat(u64_string2(seconds).as_str());
            proof {
                assert(r@ =~= self.spec_render_brief());
            }
            r
        }
    }
}

impl From<Duration> for PrettyDuration {
    fn from(value: Duration) -> (r: PrettyDuration) {
        PrettyDuration(value)
    }
}

impl vstd::std_specs::convert::FromSpecImpl<Duration> for PrettyDuration {
    open spec fn obeys_from_spec() -> bool {
        true
    }

    open spec fn from_spec(value: Duration) -> PrettyDuration {
        PrettyDuration(value)
    }
}

} // verus!
