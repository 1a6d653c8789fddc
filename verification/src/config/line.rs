//! The keyword line, and what holds of every line.
//!
//! A line is a list of segments with one comma between neighbours. Six
//! segments are always there: the monitor's name, its resolution, its
//! position, its scale, its transform and its bit depth. A segment for
//! variable refresh rate follows unless the mode is left at `Default`, and a
//! segment that names the mirrored monitor follows when there is one.

use vstd::prelude::*;
use crate::config::monitors::{
    MonitorModeFlag, MonitorPosition, MonitorTransform, MonitorVrrMode,
};
use crate::decimal::{text_begins, Decimal};
use crate::text::{
    each_prefixed, each_prefixed_concat, each_prefixed_push, is_digit, join, join_concat,
    join_push, join_single, label_joins_separator, nat_text, nat_text_is_digits,
    prefix_fixes_start,
};

verus! {

/// What a [`crate::config::monitors::MonitorMode`] holds.
pub struct ModeModel {
    pub clock: Decimal,
    pub hdisplay: u16,
    pub hsync_start: u16,
    pub hsync_end: u16,
    pub htotal: u16,
    pub vdisplay: u16,
    pub vsync_start: u16,
    pub vsync_end: u16,
    pub vtotal: u16,
    pub flags: Seq<MonitorModeFlag>,
}

/// What a [`crate::config::monitors::MonitorResolution`] holds.
pub enum ResolutionModel {
    Preferred,
    Manual { width: nat, height: nat, refresh: Option<Decimal> },
    HighResolution,
    HighRefresh,
    Modeline(ModeModel),
}

/// What a [`crate::config::monitors::MonitorSettings`] holds.
pub struct SettingsModel {
    pub resolution: ResolutionModel,
    pub position: MonitorPosition,
    pub transform: MonitorTransform,
    pub scale: Decimal,
    pub bit_depth: u32,
    pub vrr: MonitorVrrMode,
    pub mirror: Option<Seq<char>>,
}

/// The word of each flag, in the order of the flags.
pub open spec fn symbols(flags: Seq<MonitorModeFlag>) -> Seq<Seq<char>> {
    Seq::new(flags.len(), |i: int| flags[i].symbol())
}

/// The segment that names the mirrored monitor: none without one, else
/// `mirror,` and the name as it is.
pub open spec fn mirror_segments(mirror: Option<Seq<char>>) -> Seq<Seq<char>> {
    match mirror {
        Some(name) => seq!["mirror,"@ + name],
        None => Seq::empty(),
    }
}

/// What a line holds behind its bit depth for variable refresh rate:
/// nothing for `Default`, else `,vrr,` and the mode's number.
pub open spec fn vrr_tail(mode: MonitorVrrMode) -> Seq<char> {
    match mode {
        MonitorVrrMode::Default => Seq::empty(),
        _ => ",vrr,"@ + nat_text(mode.spec_code() as nat),
    }
}

/// What a line ends with for the mirrored monitor: nothing without one, else
/// `,mirror,` and its name.
pub open spec fn mirror_tail(mirror: Option<Seq<char>>) -> Seq<char> {
    match mirror {
        Some(name) => ",mirror,"@ + name,
        None => Seq::empty(),
    }
}

impl ModeModel {
    /// The words of the modeline: the clock, the four horizontal counters,
    /// the four vertical counters, then one word for each flag as the flags
    /// are stored. No flag is dropped, merged or moved.
    pub open spec fn tokens(self) -> Seq<Seq<char>> {
        seq![
            self.clock.text(),
            nat_text(self.hdisplay as nat),
            nat_text(self.hsync_start as nat),
            nat_text(self.hsync_end as nat),
            nat_text(self.htotal as nat),
            nat_text(self.vdisplay as nat),
            nat_text(self.vsync_start as nat),
            nat_text(self.vsync_end as nat),
            nat_text(self.vtotal as nat),
        ] + symbols(self.flags)
    }

    /// The modeline: its words with one space between neighbours.
    pub open spec fn text(self) -> Seq<char> {
        join(self.tokens(), seq![' '])
    }
}

impl ResolutionModel {
    /// The resolution segment.
    pub open spec fn text(self) -> Seq<char> {
        match self {
            ResolutionModel::Preferred => "preferred"@,
            ResolutionModel::Manual { width, height, refresh } => nat_text(width) + seq!['x']
                + nat_text(height) + match refresh {
                Some(rate) => seq!['@'] + rate.text(),
                None => Seq::empty(),
            },
            ResolutionModel::HighResolution => "highres"@,
            ResolutionModel::HighRefresh => "highrr"@,
            ResolutionModel::Modeline(mode) => "modeline "@ + mode.text(),
        }
    }
}

impl SettingsModel {
    /// The settings a monitor has until it is given others.
    pub open spec fn initial() -> SettingsModel {
        SettingsModel {
            resolution: ResolutionModel::Preferred,
            position: MonitorPosition::Automatic,
            transform: MonitorTransform::Normal,
            scale: Decimal::whole(1),
            bit_depth: 8,
            vrr: MonitorVrrMode::Default,
            mirror: None,
        }
    }

    /// The six segments that every line has.
    pub open spec fn fixed_segments(self, name: Seq<char>) -> Seq<Seq<char>> {
        seq![
            name,
            self.resolution.text(),
            self.position.text(),
            self.scale.text(),
            "transform,"@ + nat_text(self.transform.spec_code() as nat),
            "bitdepth,"@ + nat_text(self.bit_depth as nat),
        ]
    }

    /// The segments of the line for the monitor called `name`, in order.
    pub open spec fn segments(self, name: Seq<char>) -> Seq<Seq<char>> {
        self.fixed_segments(name) + self.vrr.segments() + mirror_segments(self.mirror)
    }

    /// The line for the monitor called `name`: its segments with one comma
    /// between neighbours.
    pub open spec fn keyword_text(self, name: Seq<char>) -> Seq<char> {
        join(self.segments(name), seq![','])
    }

    /// The part of the line that is always there, written out.
    pub open spec fn fixed_text(self, name: Seq<char>) -> Seq<char> {
        name + seq![','] + self.resolution.text() + seq![','] + self.position.text() + seq![',']
            + self.scale.text() + ",transform,"@ + nat_text(self.transform.spec_code() as nat)
            + ",bitdepth,"@ + nat_text(self.bit_depth as nat)
    }
}

/// A comma in front of a label reads as the label that begins with a comma.
proof fn labels_behind_comma()
    ensures
        seq![','] + "transform,"@ == ",transform,"@,
        seq![','] + "bitdepth,"@ == ",bitdepth,"@,
        seq![','] + "vrr,"@ == ",vrr,"@,
        seq![','] + "mirror,"@ == ",mirror,"@,
{
    reveal_strlit("transform,");
    reveal_strlit(",transform,");
    reveal_strlit("bitdepth,");
    reveal_strlit(",bitdepth,");
    reveal_strlit("vrr,");
    reveal_strlit(",vrr,");
    reveal_strlit("mirror,");
    reveal_strlit(",mirror,");
    assert(seq![','] + "transform,"@ =~= ",transform,"@);
    assert(seq![','] + "bitdepth,"@ =~= ",bitdepth,"@);
    assert(seq![','] + "vrr,"@ =~= ",vrr,"@);
    assert(seq![','] + "mirror,"@ =~= ",mirror,"@);
}

proof fn fixed_segments_joined(settings: SettingsModel, name: Seq<char>)
    ensures
        join(settings.fixed_segments(name), seq![',']) == settings.fixed_text(name),
{
    let sep = seq![','];
    let parts = settings.fixed_segments(name);
    let transform = nat_text(settings.transform.spec_code() as nat);
    let depth = nat_text(settings.bit_depth as nat);
    let one = seq![parts[0]];
    let two = one.push(parts[1]);
    let three = two.push(parts[2]);
    let four = three.push(parts[3]);
    let five = four.push(parts[4]);
    let six = five.push(parts[5]);
    join_single(parts[0], sep);
    join_push(one, parts[1], sep);
    join_push(two, parts[2], sep);
    join_push(three, parts[3], sep);
    join_push(four, parts[4], sep);
    join_push(five, parts[5], sep);
    assert(parts =~= six);
    labels_behind_comma();
    label_joins_separator(join(four, sep), sep, "transform,"@, transform);
    label_joins_separator(join(five, sep), sep, "bitdepth,"@, depth);
}

proof fn optional_segments_joined(settings: SettingsModel)
    ensures
        each_prefixed(settings.vrr.segments(), seq![',']) == vrr_tail(settings.vrr),
        each_prefixed(mirror_segments(settings.mirror), seq![',']) == mirror_tail(
            settings.mirror,
        ),
{
    let sep = seq![','];
    let none = Seq::<Seq<char>>::empty();
    let nothing = Seq::<char>::empty();
    labels_behind_comma();
    if settings.vrr != MonitorVrrMode::Default {
        let number = nat_text(settings.vrr.spec_code() as nat);
        each_prefixed_push(none, "vrr,"@ + number, sep);
        assert(settings.vrr.segments() =~= none.push("vrr,"@ + number));
        label_joins_separator(nothing, sep, "vrr,"@, number);
        assert(nothing + sep =~= sep);
        assert(nothing + ",vrr,"@ =~= ",vrr,"@);
    }
    if let Some(other) = settings.mirror {
        each_prefixed_push(none, "mirror,"@ + other, sep);
        assert(mirror_segments(settings.mirror) =~= none.push("mirror,"@ + other));
        label_joins_separator(nothing, sep, "mirror,"@, other);
        assert(nothing + sep =~= sep);
        assert(nothing + ",mirror,"@ =~= ",mirror,"@);
    }
}

/// Every line is made up the same way: the name, the resolution, the
/// position and the scale with a comma between neighbours, `,transform,`
/// with the transform's number, `,bitdepth,` with the bit depth, then what
/// the refresh mode adds, then what the mirrored monitor adds.
pub proof fn line_layout(settings: SettingsModel, name: Seq<char>)
    ensures
        settings.keyword_text(name) == settings.fixed_text(name) + vrr_tail(settings.vrr)
            + mirror_tail(settings.mirror),
{
    let sep = seq![','];
    let fixed = settings.fixed_segments(name);
    let vrr = settings.vrr.segments();
    let mirror = mirror_segments(settings.mirror);
    assert(settings.segments(name) =~= fixed + (vrr + mirror));
    join_concat(fixed, vrr + mirror, sep);
    each_prefixed_concat(vrr, mirror, sep);
    fixed_segments_joined(settings, name);
    optional_segments_joined(settings);
    assert(settings.keyword_text(name) =~= settings.fixed_text(name) + vrr_tail(settings.vrr)
        + mirror_tail(settings.mirror));
}

/// Settings that were never changed give the same line for every monitor,
/// but for the name in front.
pub proof fn initial_line(name: Seq<char>)
    ensures
        SettingsModel::initial().keyword_text(name) == name
            + ",preferred,auto,1,transform,0,bitdepth,8"@,
{
    let settings = SettingsModel::initial();
    line_layout(settings, name);
    reveal_strlit("preferred");
    reveal_strlit("auto");
    reveal_strlit(",transform,");
    reveal_strlit(",bitdepth,");
    reveal_strlit(",preferred,auto,1,transform,0,bitdepth,8");
    assert(settings.scale.text() =~= seq!['1']);
    assert(nat_text(0) =~= seq!['0']);
    assert(nat_text(8) =~= seq!['8']);
    let rest = seq![','] + "preferred"@ + seq![','] + "auto"@ + seq![','] + seq!['1']
        + ",transform,"@ + seq!['0'] + ",bitdepth,"@ + seq!['8'];
    assert(rest =~= ",preferred,auto,1,transform,0,bitdepth,8"@);
    assert(settings.fixed_text(name) =~= name + rest);
    assert(settings.keyword_text(name) =~= name + rest);
}

/// A refresh mode other than `Default` shows in the line: the segment right
/// behind the bit depth is `vrr,` with the mode's number.
pub proof fn vrr_segment_present(settings: SettingsModel, name: Seq<char>)
    requires
        settings.vrr != MonitorVrrMode::Default,
    ensures
        settings.segments(name).len() >= 7,
        settings.segments(name)[5] == "bitdepth,"@ + nat_text(settings.bit_depth as nat),
        settings.segments(name)[6] == "vrr,"@ + nat_text(settings.vrr.spec_code() as nat),
        settings.keyword_text(name) == settings.fixed_text(name) + ",vrr,"@ + nat_text(
            settings.vrr.spec_code() as nat,
        ) + mirror_tail(settings.mirror),
{
    line_layout(settings, name);
    assert(settings.keyword_text(name) =~= settings.fixed_text(name) + ",vrr,"@ + nat_text(
        settings.vrr.spec_code() as nat,
    ) + mirror_tail(settings.mirror));
}

/// A resolution segment begins with a digit or with one of `p`, `h`, `m`;
/// one that begins with `m` goes on with `o`.
proof fn resolution_begins(resolution: ResolutionModel)
    ensures
        resolution.text().len() >= 2,
        is_digit(resolution.text()[0]) || resolution.text()[0] == 'p' || resolution.text()[0]
            == 'h' || (resolution.text()[0] == 'm' && resolution.text()[1] == 'o'),
{
    reveal_strlit("preferred");
    reveal_strlit("highres");
    reveal_strlit("highrr");
    reveal_strlit("modeline ");
    match resolution {
        ResolutionModel::Manual { width, height, refresh } => {
            nat_text_is_digits(width);
            assert(is_digit(nat_text(width)[0]));
        },
        _ => {},
    }
}

/// A position segment begins with `a`, a sign or a digit.
proof fn position_begins(position: MonitorPosition)
    ensures
        position.text().len() >= 1,
        is_digit(position.text()[0]) || position.text()[0] == 'a' || position.text()[0] == '-',
{
    reveal_strlit("auto");
    match position {
        MonitorPosition::Manual { x, y } => {
            if x >= 0 {
                nat_text_is_digits(x as nat);
                assert(is_digit(nat_text(x as nat)[0]));
            }
        },
        _ => {},
    }
}

/// With the refresh mode at `Default` no segment of the line begins with
/// `vrr,`, unless the monitor's own name does.
pub proof fn vrr_segment_absent(settings: SettingsModel, name: Seq<char>)
    requires
        settings.vrr == MonitorVrrMode::Default,
        !"vrr,"@.is_prefix_of(name),
    ensures
        forall|i: int|
            0 <= i < settings.segments(name).len() ==> !"vrr,"@.is_prefix_of(
                #[trigger] settings.segments(name)[i],
            ),
        settings.keyword_text(name) == settings.fixed_text(name) + mirror_tail(settings.mirror),
{
    line_layout(settings, name);
    assert(settings.keyword_text(name) =~= settings.fixed_text(name) + mirror_tail(
        settings.mirror,
    ));
    reveal_strlit("vrr,");
    reveal_strlit("transform,");
    reveal_strlit("bitdepth,");
    reveal_strlit("mirror,");
    resolution_begins(settings.resolution);
    position_begins(settings.position);
    text_begins(settings.scale);
    assert forall|i: int| 0 <= i < settings.segments(name).len() implies !"vrr,"@.is_prefix_of(
        #[trigger] settings.segments(name)[i],
    ) by {
        if i >= 1 && "vrr,"@.is_prefix_of(settings.segments(name)[i]) {
            prefix_fixes_start("vrr,"@, settings.segments(name)[i]);
            assert(settings.segments(name)[i][0] == 'v');
        }
    }
}

/// Where a monitor is mirrored, the last segment of the line is `mirror,`
/// with that monitor's name, and the line ends with it behind a comma.
pub proof fn mirror_segment_present(settings: SettingsModel, name: Seq<char>)
    requires
        settings.mirror is Some,
    ensures
        settings.segments(name).last() == "mirror,"@ + settings.mirror->0,
        (",mirror,"@ + settings.mirror->0).is_suffix_of(settings.keyword_text(name)),
{
    line_layout(settings, name);
    let tail = ",mirror,"@ + settings.mirror->0;
    let line = settings.keyword_text(name);
    let front = settings.fixed_text(name) + vrr_tail(settings.vrr);
    assert(line =~= front + tail);
    assert(line.subrange(line.len() - tail.len(), line.len() as int) =~= tail);
}

/// Where no monitor is mirrored, no segment of the line begins with
/// `mirror,`, unless the monitor's own name does.
pub proof fn mirror_segment_absent(settings: SettingsModel, name: Seq<char>)
    requires
        settings.mirror is None,
        !"mirror,"@.is_prefix_of(name),
    ensures
        forall|i: int|
            0 <= i < settings.segments(name).len() ==> !"mirror,"@.is_prefix_of(
                #[trigger] settings.segments(name)[i],
            ),
        settings.keyword_text(name) == settings.fixed_text(name) + vrr_tail(settings.vrr),
{
    line_layout(settings, name);
    assert(settings.keyword_text(name) =~= settings.fixed_text(name) + vrr_tail(settings.vrr));
    reveal_strlit("mirror,");
    reveal_strlit("transform,");
    reveal_strlit("bitdepth,");
    reveal_strlit("vrr,");
    resolution_begins(settings.resolution);
    position_begins(settings.position);
    text_begins(settings.scale);
    assert forall|i: int|
        0 <= i < settings.segments(name).len() implies !"mirror,"@.is_prefix_of(
        #[trigger] settings.segments(name)[i],
    ) by {
        if i >= 1 && "mirror,"@.is_prefix_of(settings.segments(name)[i]) {
            prefix_fixes_start("mirror,"@, settings.segments(name)[i]);
            assert(settings.segments(name)[i][0] == 'm');
            assert(settings.segments(name)[i][1] == 'i');
        }
    }
}

/// A resolution given by width and height is written as the two numbers
/// with an `x` between them. Without a refresh rate that is all, and no `@`
/// occurs; with one, `@` and the rate follow.
pub proof fn manual_resolution_text(width: nat, height: nat, refresh: Option<Decimal>)
    ensures
        refresh is None ==> (ResolutionModel::Manual { width, height, refresh }).text()
            == nat_text(width) + seq!['x'] + nat_text(height),
        refresh is None ==> !(ResolutionModel::Manual { width, height, refresh }).text().contains(
            '@',
        ),
        refresh is Some ==> (ResolutionModel::Manual { width, height, refresh }).text()
            == nat_text(width) + seq!['x'] + nat_text(height) + seq!['@'] + refresh->0.text(),
{
    let text = (ResolutionModel::Manual { width, height, refresh }).text();
    if refresh is None {
        assert(text =~= nat_text(width) + seq!['x'] + nat_text(height));
        nat_text_is_digits(width);
        nat_text_is_digits(height);
        assert forall|i: int| 0 <= i < text.len() implies text[i] != '@' by {
            if i < nat_text(width).len() {
                assert(is_digit(nat_text(width)[i]));
            } else if i > nat_text(width).len() {
                assert(is_digit(nat_text(height)[i - nat_text(width).len() - 1]));
            }
        }
    } else {
        assert(text =~= nat_text(width) + seq!['x'] + nat_text(height) + seq!['@']
            + refresh->0.text());
    }
}

/// A modeline is the clock and the eight counters with one space between
/// neighbours, then each flag's word behind a space of its own, in the order
/// in which the flags are stored.
pub proof fn modeline_text(mode: ModeModel)
    ensures
        mode.text() == mode.clock.text() + seq![' '] + nat_text(mode.hdisplay as nat) + seq![' ']
            + nat_text(mode.hsync_start as nat) + seq![' '] + nat_text(mode.hsync_end as nat)
            + seq![' '] + nat_text(mode.htotal as nat) + seq![' '] + nat_text(
            mode.vdisplay as nat,
        ) + seq![' '] + nat_text(mode.vsync_start as nat) + seq![' '] + nat_text(
            mode.vsync_end as nat,
        ) + seq![' '] + nat_text(mode.vtotal as nat) + each_prefixed(
            symbols(mode.flags),
            seq![' '],
        ),
        (ResolutionModel::Modeline(mode)).text() == "modeline "@ + mode.text(),
{
    let sep = seq![' '];
    let timing = mode.tokens().take(9);
    let one = seq![timing[0]];
    let two = one.push(timing[1]);
    let three = two.push(timing[2]);
    let four = three.push(timing[3]);
    let five = four.push(timing[4]);
    let six = five.push(timing[5]);
    let seven = six.push(timing[6]);
    let eight = seven.push(timing[7]);
    let nine = eight.push(timing[8]);
    join_single(timing[0], sep);
    join_push(one, timing[1], sep);
    join_push(two, timing[2], sep);
    join_push(three, timing[3], sep);
    join_push(four, timing[4], sep);
    join_push(five, timing[5], sep);
    join_push(six, timing[6], sep);
    join_push(seven, timing[7], sep);
    join_push(eight, timing[8], sep);
    assert(timing =~= nine);
    assert(mode.tokens() =~= timing + symbols(mode.flags));
    join_concat(timing, symbols(mode.flags), sep);
}

/// Flags added at the end of a modeline are written at its end, each behind
/// a space, and what stood there before stays as it was.
pub proof fn modeline_grows_with_flags(mode: ModeModel, flag: MonitorModeFlag)
    ensures
        (ModeModel { flags: mode.flags.push(flag), ..mode }).text() == mode.text() + seq![' ']
            + flag.symbol(),
{
    let longer = ModeModel { flags: mode.flags.push(flag), ..mode };
    assert(longer.tokens() =~= mode.tokens().push(flag.symbol()));
    join_push(mode.tokens(), flag.symbol(), seq![' ']);
}

/// No two transforms share a number, and the numbers are those from 0 to 7.
pub proof fn transform_codes_differ(one: MonitorTransform, other: MonitorTransform)
    ensures
        one.spec_code() <= 7,
        one.spec_code() == other.spec_code() ==> one == other,
{
}

/// No two refresh modes share a number; `Default` has 255 and the others
/// the numbers from 0 to 2.
pub proof fn vrr_codes_differ(one: MonitorVrrMode, other: MonitorVrrMode)
    ensures
        one == MonitorVrrMode::Default <==> one.spec_code() == 255,
        one != MonitorVrrMode::Default ==> one.spec_code() <= 2,
        one.spec_code() == other.spec_code() ==> one == other,
{
}

} // verus!
