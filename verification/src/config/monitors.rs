//! The settings of one monitor and the keyword line that applies them.
//!
//! What goes into a line, and in what order, is laid down in
//! [`crate::config::line`]. The functions here write it.

use vstd::prelude::*;
use vstd::string::StringExecFns;
use crate::config::line::{ModeModel, ResolutionModel, SettingsModel};
use crate::decimal::Decimal;
use crate::text::{int_text, join_strings, nat_text, push_int, push_nat, views};

verus! {

/// How a monitor is to be set up.
#[derive(Clone, Debug, PartialEq, Eq)]
pub struct MonitorSettings {
    pub resolution: MonitorResolution,
    pub position: MonitorPosition,
    pub transform: MonitorTransform,
    pub scale: Decimal,
    pub bit_depth: u32,
    pub vrr: MonitorVrrMode,
    pub mirror: Option<String>,
}

#[derive(Clone, Debug, PartialEq, Eq)]
pub enum MonitorResolution {
    Preferred,
    Manual { width: usize, height: usize, refresh: Option<Decimal> },
    HighResolution,
    HighRefresh,
    Modeline(MonitorMode),
}

/// A raw display timing: the pixel clock, the horizontal and the vertical
/// counters, and the polarity of the sync pulses.
///
/// For an overview see <https://en.wikipedia.org/wiki/XFree86_Modeline>.
#[derive(Clone, Debug, PartialEq, Eq)]
pub struct MonitorMode {
    pub clock: Decimal,
    pub hdisplay: u16,
    pub hsync_start: u16,
    pub hsync_end: u16,
    pub htotal: u16,
    pub vdisplay: u16,
    pub vsync_start: u16,
    pub vsync_end: u16,
    pub vtotal: u16,
    pub flags: Vec<MonitorModeFlag>,
}

/// The polarity of one sync pulse. Interlace, double scan and composite sync
/// have no variant: the compositor takes none of them.
#[derive(Clone, Copy, Debug, PartialEq, Eq)]
pub enum MonitorModeFlag {
    PHSync,
    NHSync,
    PVSync,
    NVSync,
}

#[derive(Clone, Copy, Debug, PartialEq, Eq)]
pub enum MonitorTransform {
    Normal,
    Degrees90,
    Degrees180,
    Degrees270,
    Flipped,
    Degrees90Flipped,
    Degrees180Flipped,
    Degrees270Flipped,
}

#[derive(Clone, Debug, PartialEq, Eq)]
pub enum MonitorPosition {
    Automatic,
    Manual { x: isize, y: isize },
}

#[derive(Clone, Copy, Debug, PartialEq, Eq)]
pub enum MonitorVrrMode {
    Default,
    Off,
    On,
    Fullscreen,
}

impl View for MonitorMode {
    type V = ModeModel;

    open spec fn view(&self) -> ModeModel {
        ModeModel {
            clock: self.clock,
            hdisplay: self.hdisplay,
            hsync_start: self.hsync_start,
            hsync_end: self.hsync_end,
            htotal: self.htotal,
            vdisplay: self.vdisplay,
            vsync_start: self.vsync_start,
            vsync_end: self.vsync_end,
            vtotal: self.vtotal,
            flags: self.flags@,
        }
    }
}

impl View for MonitorResolution {
    type V = ResolutionModel;

    open spec fn view(&self) -> ResolutionModel {
        match self {
            MonitorResolution::Preferred => ResolutionModel::Preferred,
            MonitorResolution::Manual { width, height, refresh } => ResolutionModel::Manual {
                width: *width as nat,
                height: *height as nat,
                refresh: *refresh,
            },
            MonitorResolution::HighResolution => ResolutionModel::HighResolution,
            MonitorResolution::HighRefresh => ResolutionModel::HighRefresh,
            MonitorResolution::Modeline(mode) => ResolutionModel::Modeline(mode@),
        }
    }
}

impl View for MonitorSettings {
    type V = SettingsModel;

    open spec fn view(&self) -> SettingsModel {
        SettingsModel {
            resolution: self.resolution@,
            position: self.position,
            transform: self.transform,
            scale: self.scale,
            bit_depth: self.bit_depth,
            vrr: self.vrr,
            mirror: match self.mirror {
                Some(name) => Some(name@),
                None => None,
            },
        }
    }
}

impl MonitorTransform {
    /// The number that stands for the transform in a keyword line.
    pub open spec fn spec_code(self) -> u32 {
        match self {
            MonitorTransform::Normal => 0,
            MonitorTransform::Degrees90 => 1,
            MonitorTransform::Degrees180 => 2,
            MonitorTransform::Degrees270 => 3,
            MonitorTransform::Flipped => 4,
            MonitorTransform::Degrees90Flipped => 5,
            MonitorTransform::Degrees180Flipped => 6,
            MonitorTransform::Degrees270Flipped => 7,
        }
    }

    /// The number that stands for the transform in a keyword line.
    #[verifier::when_used_as_spec(spec_code)]
    pub fn code(self) -> (code: u32)
        ensures
            code == self.spec_code(),
    {
        match self {
            MonitorTransform::Normal => 0,
            MonitorTransform::Degrees90 => 1,
            MonitorTransform::Degrees180 => 2,
            MonitorTransform::Degrees270 => 3,
            MonitorTransform::Flipped => 4,
            MonitorTransform::Degrees90Flipped => 5,
            MonitorTransform::Degrees180Flipped => 6,
            MonitorTransform::Degrees270Flipped => 7,
        }
    }
}

impl MonitorVrrMode {
    /// The number that stands for the mode in a keyword line. The number of
    /// `Default` is never written: it marks the mode that leaves the segment
    /// out.
    pub open spec fn spec_code(self) -> u32 {
        match self {
            MonitorVrrMode::Default => 255,
            MonitorVrrMode::Off => 0,
            MonitorVrrMode::On => 1,
            MonitorVrrMode::Fullscreen => 2,
        }
    }

    /// The number that stands for the mode in a keyword line.
    #[verifier::when_used_as_spec(spec_code)]
    pub fn code(self) -> (code: u32)
        ensures
            code == self.spec_code(),
    {
        match self {
            MonitorVrrMode::Default => 255,
            MonitorVrrMode::Off => 0,
            MonitorVrrMode::On => 1,
            MonitorVrrMode::Fullscreen => 2,
        }
    }

    /// The segment for this mode: none for `Default`, else `vrr,` and the
    /// mode's number.
    pub open spec fn segments(self) -> Seq<Seq<char>> {
        match self {
            MonitorVrrMode::Default => Seq::empty(),
            _ => seq!["vrr,"@ + nat_text(self.spec_code() as nat)],
        }
    }
}

impl MonitorModeFlag {
    /// The word for the flag in a modeline.
    pub open spec fn symbol(self) -> Seq<char> {
        match self {
            MonitorModeFlag::PHSync => "+hsync"@,
            MonitorModeFlag::NHSync => "-hsync"@,
            MonitorModeFlag::PVSync => "+vsync"@,
            MonitorModeFlag::NVSync => "-vsync"@,
        }
    }

    /// The word for the flag in a modeline.
    pub fn as_str(self) -> (word: &'static str)
        ensures
            word@ == self.symbol(),
    {
        match self {
            MonitorModeFlag::PHSync => "+hsync",
            MonitorModeFlag::NHSync => "-hsync",
            MonitorModeFlag::PVSync => "+vsync",
            MonitorModeFlag::NVSync => "-vsync",
        }
    }

    /// The word for the flag in a modeline.
    pub fn to_string(&self) -> (word: String)
        ensures
            word@ == self.symbol(),
    {
        self.as_str().to_owned()
    }
}

impl MonitorPosition {
    /// The position segment: `auto`, or the two coordinates with an `x`
    /// between them.
    pub open spec fn text(self) -> Seq<char> {
        match self {
            MonitorPosition::Automatic => "auto"@,
            MonitorPosition::Manual { x, y } => int_text(x as int) + seq!['x'] + int_text(
                y as int,
            ),
        }
    }

    fn segment(&self) -> (out: String)
        ensures
            out@ == self.text(),
    {
        let mut out = String::new();
        match self {
            MonitorPosition::Automatic => {
                out.append("auto");
            },
            MonitorPosition::Manual { x, y } => {
                push_int(&mut out, *x as i64);
                proof {
                    reveal_strlit("x");
                }
                out.append("x");
                push_int(&mut out, *y as i64);
            },
        }
        assert(out@ =~= self.text());
        out
    }
}

impl MonitorMode {
    /// Writes the modeline out: the clock and the eight counters, then the
    /// word of each flag as the flags are stored, with one space between
    /// neighbours.
    pub fn to_string(&self) -> (line: String)
        ensures
            line@ == self@.text(),
    {
        let mut tokens: Vec<String> = Vec::new();
        tokens.push(self.clock.to_string());
        tokens.push(counter_string(self.hdisplay));
        tokens.push(counter_string(self.hsync_start));
        tokens.push(counter_string(self.hsync_end));
        tokens.push(counter_string(self.htotal));
        tokens.push(counter_string(self.vdisplay));
        tokens.push(counter_string(self.vsync_start));
        tokens.push(counter_string(self.vsync_end));
        tokens.push(counter_string(self.vtotal));
        let mut done: usize = 0;
        while done < self.flags.len()
            invariant
                done <= self.flags.len(),
                views(tokens@) == self@.tokens().take(9 + done),
            decreases self.flags.len() - done,
        {
            let ghost before = views(tokens@);
            tokens.push(self.flags[done].to_string());
            proof {
                let next = self@.tokens()[9 + done];
                assert(next == self.flags@[done as int].symbol());
                assert(views(tokens@) =~= before.push(next));
                assert(self@.tokens().take(9 + done + 1) =~= self@.tokens().take(9 + done).push(
                    next,
                ));
            }
            done = done + 1;
        }
        assert(self@.tokens().take(9 + done) =~= self@.tokens());
        proof {
            reveal_strlit(" ");
            assert(" "@ =~= seq![' ']);
        }
        join_strings(&tokens, " ")
    }
}

fn counter_string(counter: u16) -> (out: String)
    ensures
        out@ == nat_text(counter as nat),
{
    let mut out = String::new();
    push_nat(&mut out, counter as u64);
    assert(out@ =~= nat_text(counter as nat));
    out
}

impl MonitorResolution {
    fn segment(&self) -> (out: String)
        ensures
            out@ == self@.text(),
    {
        let mut out = String::new();
        match self {
            MonitorResolution::Preferred => {
                out.append("preferred");
            },
            MonitorResolution::Manual { width, height, refresh } => {
                push_nat(&mut out, *width as u64);
                proof {
                    reveal_strlit("x");
                }
                out.append("x");
                push_nat(&mut out, *height as u64);
                match refresh {
                    Some(rate) => {
                        proof {
                            reveal_strlit("@");
                        }
                        out.append("@");
                        out.append(rate.to_string().as_str());
                    },
                    None => {},
                }
            },
            MonitorResolution::HighResolution => {
                out.append("highres");
            },
            MonitorResolution::HighRefresh => {
                out.append("highrr");
            },
            MonitorResolution::Modeline(mode) => {
                out.append("modeline ");
                out.append(mode.to_string().as_str());
            },
        }
        assert(out@ =~= self@.text());
        out
    }
}

/// `label` with `number` in decimal notation behind it.
fn labelled(label: &str, number: u32) -> (out: String)
    ensures
        out@ == label@ + nat_text(number as nat),
{
    let mut out = label.to_owned();
    push_nat(&mut out, number as u64);
    out
}

impl MonitorSettings {
    /// Writes the keyword line that applies these settings to the monitor
    /// called `name`.
    ///
    /// The line is made of segments, and a segment is written only where it
    /// has something to say: the six fixed ones always, the one for the
    /// refresh mode unless the mode is `Default`, the one for the mirrored
    /// monitor if there is one. The name is written as it is, and so is the
    /// name of the mirrored monitor; neither should hold a comma.
    pub fn to_keyword_string(&self, name: &str) -> (line: String)
        ensures
            line@ == self@.keyword_text(name@),
    {
        let mut segments: Vec<String> = Vec::new();
        segments.push(name.to_owned());
        segments.push(self.resolution.segment());
        segments.push(self.position.segment());
        segments.push(self.scale.to_string());
        segments.push(labelled("transform,", self.transform.code()));
        segments.push(labelled("bitdepth,", self.bit_depth));
        assert(views(segments@) =~= self@.fixed_segments(name@));
        match self.vrr {
            MonitorVrrMode::Default => {},
            mode => {
                segments.push(labelled("vrr,", mode.code()));
            },
        }
        assert(views(segments@) =~= self@.fixed_segments(name@) + self.vrr.segments());
        match &self.mirror {
            Some(other) => {
                let mut segment = "mirror,".to_owned();
                segment.append(other.as_str());
                segments.push(segment);
            },
            None => {},
        }
        assert(views(segments@) =~= self@.segments(name@));
        proof {
            reveal_strlit(",");
            assert(","@ =~= seq![',']);
        }
        join_strings(&segments, ",")
    }
}

impl Default for MonitorSettings {
    /// The settings a monitor has until it is given others.
    fn default() -> (settings: MonitorSettings)
        ensures
            settings@ == SettingsModel::initial(),
    {
        MonitorSettings {
            resolution: MonitorResolution::Preferred,
            position: MonitorPosition::Automatic,
            transform: MonitorTransform::Normal,
            scale: Decimal::Finite { negative: false, mantissa: 1, exponent: 0 },
            bit_depth: 8,
            vrr: MonitorVrrMode::Default,
            mirror: None,
        }
    }
}

} // verus!
