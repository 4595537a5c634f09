//! The heartbeat loop of one account: which request keeps the platform
//! counting the account as a viewer of the channel to watch.

use vstd::prelude::*;
use crate::channel::{Channel, ChannelView, NowWatched, WatchedView};

verus! {

/// Seconds between two rounds of the loop.
pub const STREAM_SLEEP: u64 = 20;

/// What the account's task does next.
#[derive(Debug, PartialEq, Eq)]
pub enum WatchAction {
    /// Look up the live stream of this channel, then call `resolved`.
    Resolve { channel_login: String },
    /// Send a heartbeat for this stream. Whether it succeeds or fails, wait
    /// and start the next round.
    Beat { channel_login: String, stream_id: String, channel_id: String, wait_secs: u64 },
    /// The channel is not live: ask the scheduler for another one, wait,
    /// and start the next round.
    Stall { wait_secs: u64 },
}

/// An action in contracts.
pub enum WatchView {
    Resolve { channel_login: Seq<char> },
    Beat { channel_login: Seq<char>, stream_id: Seq<char>, channel_id: Seq<char>, wait_secs: u64 },
    Stall { wait_secs: u64 },
}

impl View for WatchAction {
    type V = WatchView;

    open spec fn view(&self) -> WatchView {
        match *self {
            WatchAction::Resolve { channel_login } => WatchView::Resolve {
                channel_login: channel_login@,
            },
            WatchAction::Beat { channel_login, stream_id, channel_id, wait_secs } => WatchView::Beat {
                channel_login: channel_login@,
                stream_id: stream_id@,
                channel_id: channel_id@,
                wait_secs,
            },
            WatchAction::Stall { wait_secs } => WatchView::Stall { wait_secs },
        }
    }
}

/// Whether the loop turns to another channel: it watches none yet, or the
/// target has another login than the channel it watches.
pub open spec fn switches(watched: WatchedView, target: ChannelView) -> bool {
    watched.channel_login.len() == 0 || watched.channel_login != target.login
}

/// The state at the start of a round with this target: the stream of
/// another channel is forgotten.
pub open spec fn turned_to(watched: WatchedView, target: ChannelView) -> WatchedView {
    if switches(watched, target) {
        WatchedView { channel_login: target.login, channel_id: target.id, stream_id: Seq::empty() }
    } else {
        WatchedView { channel_id: target.id, ..watched }
    }
}

/// What a round does in this state: without a stream it looks one up,
/// with one it sends a heartbeat.
pub open spec fn round_action(watched: WatchedView) -> WatchView {
    if watched.stream_id.len() == 0 {
        WatchView::Resolve { channel_login: watched.channel_login }
    } else {
        beat_for(watched)
    }
}

/// The heartbeat for the watched channel.
pub open spec fn beat_for(watched: WatchedView) -> WatchView {
    WatchView::Beat {
        channel_login: watched.channel_login,
        stream_id: watched.stream_id,
        channel_id: watched.channel_id,
        wait_secs: STREAM_SLEEP,
    }
}

impl NowWatched {
    /// Starts a round with the current target. Returns whether the loop
    /// has turned to another channel, and what to do.
    pub fn begin(&mut self, target: &Channel) -> (round: (bool, WatchAction))
        ensures
            round.0 == switches(old(self)@, target@),
            final(self)@ == turned_to(old(self)@, target@),
            round.1@ == round_action(final(self)@),
    {
        let switched = self.channel_login.as_str().unicode_len() == 0 || self.channel_login
            != target.channel_login;
        if switched {
            self.channel_login = target.channel_login.clone();
            self.stream_id = String::new();
        }
        self.channel_id = target.channel_id.clone();
        let action = if self.stream_id.as_str().unicode_len() == 0 {
            WatchAction::Resolve { channel_login: self.channel_login.clone() }
        } else {
            self.beat()
        };
        (switched, action)
    }

    /// Takes the answer to a stream lookup: the id of the live stream, or
    /// `None` where the channel is not live. With a stream the heartbeat
    /// follows; without one the channel is reported as stalled.
    pub fn resolved(&mut self, stream: Option<&str>) -> (action: WatchAction)
        ensures
            match stream {
                Some(id) => final(self)@ == (WatchedView { stream_id: id@, ..old(self)@ })
                    && action@ == beat_for(final(self)@),
                None => final(self)@ == old(self)@ && action@ == (WatchView::Stall {
                    wait_secs: STREAM_SLEEP,
                }),
            },
    {
        match stream {
            Some(id) => {
                self.stream_id = id.to_owned();
                self.beat()
            },
            None => WatchAction::Stall { wait_secs: STREAM_SLEEP },
        }
    }

    /// The heartbeat for the watched channel.
    fn beat(&self) -> (action: WatchAction)
        ensures
            action@ == beat_for(self@),
    {
        WatchAction::Beat {
            channel_login: self.channel_login.clone(),
            stream_id: self.stream_id.clone(),
            channel_id: self.channel_id.clone(),
            wait_secs: STREAM_SLEEP,
        }
    }
}

} // verus!
