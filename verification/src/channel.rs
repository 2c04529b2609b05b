//! Channels and the flushes recorded against them.
//!
//! A channel is a multiset-equality bus. A flush pushes the rows of a tuple
//! of oracles into a channel or pulls them from it. The ledger only records
//! flushes: that each channel is balanced is proved elsewhere.

use crate::oracle::OracleId;
use vstd::prelude::*;

verus! {

/// Identifies a channel.
pub type ChannelId = usize;

/// Whether a flush adds rows to its channel or takes them from it.
#[derive(Clone, Copy, Debug, PartialEq, Eq, Structural)]
pub enum FlushDirection {
    Push,
    Pull,
}

/// A recorded flush of the first `count` rows of a tuple of oracles.
#[derive(Debug)]
pub struct Flush {
    pub channel_id: ChannelId,
    pub direction: FlushDirection,
    pub oracles: Vec<OracleId>,
    pub count: usize,
}

/// The mathematical content of a [`Flush`].
pub struct FlushView {
    pub channel_id: ChannelId,
    pub direction: FlushDirection,
    pub oracles: Seq<OracleId>,
    pub count: usize,
}

impl View for Flush {
    type V = FlushView;

    open spec fn view(&self) -> FlushView {
        FlushView {
            channel_id: self.channel_id,
            direction: self.direction,
            oracles: self.oracles@,
            count: self.count,
        }
    }
}

/// The views of a sequence of flushes.
pub open spec fn flush_views(s: Seq<Flush>) -> Seq<FlushView> {
    s.map_values(|f: Flush| f@)
}

/// The largest channel id among the flushes, zero when there is none.
pub open spec fn max_channel_id(flushes: Seq<FlushView>) -> ChannelId
    decreases flushes.len(),
{
    if flushes.len() == 0 {
        0
    } else {
        let rest = max_channel_id(flushes.drop_last());
        if flushes.last().channel_id > rest {
            flushes.last().channel_id
        } else {
            rest
        }
    }
}

} // verus!
