//! The actions a page script is made of, as the runner plays them.
use vstd::prelude::*;

use std::sync::Arc;

use crate::font::{BdfFont, FontModel};
use crate::frame::{FrameModel, Region, RgbFrame};
use crate::profile::Speed;

verus! {

/// A span of time, held as whole seconds and the nanoseconds beyond them
/// (the two parts of `std::time::Duration`).
#[derive(Clone, Copy, Debug, PartialEq, Eq, Structural)]
pub struct Interval {
    pub secs: u64,
    pub nanos: u32,
}

impl Interval {
    /// A whole number of seconds.
    pub fn from_secs(secs: u64) -> (r: Interval)
        ensures
            r == (Interval { secs, nanos: 0 }),
    {
        Interval { secs, nanos: 0 }
    }
}

/// Text that scrolls through a region of the board.
#[derive(Clone, Debug)]
pub struct ScrollSpec {
    pub region: Region,
    pub text: String,
    pub font: Arc<BdfFont>,
    pub color: [u8; 3],
    pub speed_px_per_second: Speed,
    pub start_padding: usize,
    pub end_padding: usize,
    pub repeat: bool,
}

pub struct ScrollModel {
    pub region: Region,
    pub text: Seq<char>,
    pub font: FontModel,
    pub color: [u8; 3],
    pub speed_px_per_second: Speed,
    pub start_padding: usize,
    pub end_padding: usize,
    pub repeat: bool,
}

impl View for ScrollSpec {
    type V = ScrollModel;

    open spec fn view(&self) -> ScrollModel {
        ScrollModel {
            region: self.region,
            text: self.text@,
            font: (*self.font)@,
            color: self.color,
            speed_px_per_second: self.speed_px_per_second,
            start_padding: self.start_padding,
            end_padding: self.end_padding,
            repeat: self.repeat,
        }
    }
}

/// One step of a page script.
#[derive(Clone, Debug)]
pub enum ScriptAction {
    /// Shows a frame, with text scrolling over it if there is a scroll.
    Present { frame: RgbFrame, scroll: Option<ScrollSpec> },
    /// Waits this long.
    Wait(Interval),
    /// Waits until the scroll of the frame shown has gone through.
    WaitScrollEnd,
}

pub enum ActionModel {
    Present { frame: FrameModel, scroll: Option<ScrollModel> },
    Wait(Interval),
    WaitScrollEnd,
}

pub open spec fn scroll_view(s: Option<ScrollSpec>) -> Option<ScrollModel> {
    match s {
        Some(x) => Some(x@),
        None => None,
    }
}

impl View for ScriptAction {
    type V = ActionModel;

    open spec fn view(&self) -> ActionModel {
        match self {
            ScriptAction::Present { frame, scroll } => ActionModel::Present {
                frame: frame@,
                scroll: scroll_view(*scroll),
            },
            ScriptAction::Wait(d) => ActionModel::Wait(*d),
            ScriptAction::WaitScrollEnd => ActionModel::WaitScrollEnd,
        }
    }
}

pub open spec fn actions_view(v: Seq<ScriptAction>) -> Seq<ActionModel> {
    v.map_values(|a: ScriptAction| a@)
}

/// A page script for a board of `width` x `height`: `first` is played once,
/// then `cycle`, if any, over and over.
#[derive(Clone, Debug)]
pub struct ScriptRunner {
    pub width: usize,
    pub height: usize,
    pub first: Vec<ScriptAction>,
    pub cycle: Option<Vec<ScriptAction>>,
}

pub struct RunnerModel {
    pub width: usize,
    pub height: usize,
    pub first: Seq<ActionModel>,
    pub cycle: Option<Seq<ActionModel>>,
}

impl View for ScriptRunner {
    type V = RunnerModel;

    open spec fn view(&self) -> RunnerModel {
        RunnerModel {
            width: self.width,
            height: self.height,
            first: actions_view(self.first@),
            cycle: match self.cycle {
                Some(c) => Some(actions_view(c@)),
                None => None,
            },
        }
    }
}

impl ScriptRunner {
    pub fn new(
        width: usize,
        height: usize,
        first: Vec<ScriptAction>,
        cycle: Option<Vec<ScriptAction>>,
    ) -> (r: ScriptRunner)
        ensures
            r.width == width,
            r.height == height,
            r.first == first,
            r.cycle == cycle,
    {
        ScriptRunner { width, height, first, cycle }
    }
}

/// Another handle on a shared font (`Arc::clone`): the same font.
#[verifier::external_body]
pub(crate) fn share_font(font: &Arc<BdfFont>) -> (r: Arc<BdfFont>)
    ensures
        r == *font,
{
    Arc::clone(font)
}

} // verus!
