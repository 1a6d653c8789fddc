use hlwsp::config::monitors::{
    MonitorMode, MonitorModeFlag, MonitorPosition, MonitorResolution, MonitorSettings,
    MonitorTransform, MonitorVrrMode,
};
use hlwsp::decimal::Decimal;

fn decimal(mantissa: u64, exponent: i16) -> Decimal {
    Decimal::Finite { negative: false, mantissa, exponent }
}

fn desk_mode() -> MonitorMode {
    MonitorMode {
        clock: decimal(1728, -1),
        hdisplay: 1920,
        hsync_start: 2040,
        hsync_end: 2248,
        htotal: 2576,
        vdisplay: 1080,
        vsync_start: 1081,
        vsync_end: 1084,
        vtotal: 1118,
        flags: vec![MonitorModeFlag::NHSync, MonitorModeFlag::PVSync],
    }
}

#[test]
fn default_settings_render_the_six_fixed_segments() {
    let settings = MonitorSettings::default();
    assert_eq!(
        settings.to_keyword_string("eDP-1"),
        "eDP-1,preferred,auto,1,transform,0,bitdepth,8"
    );
    assert_eq!(settings.to_keyword_string(""), ",preferred,auto,1,transform,0,bitdepth,8");
}

#[test]
fn default_settings_hold_the_documented_values() {
    let settings = MonitorSettings::default();
    assert_eq!(settings.resolution, MonitorResolution::Preferred);
    assert_eq!(settings.position, MonitorPosition::Automatic);
    assert_eq!(settings.transform, MonitorTransform::Normal);
    assert_eq!(settings.scale, decimal(1, 0));
    assert_eq!(settings.bit_depth, 8);
    assert_eq!(settings.vrr, MonitorVrrMode::Default);
    assert_eq!(settings.mirror, None);
}

#[test]
fn rotated_monitor_beside_the_laptop() {
    let settings = MonitorSettings {
        resolution: MonitorResolution::Manual { width: 1920, height: 1080, refresh: None },
        position: MonitorPosition::Manual { x: 1920, y: 0 },
        transform: MonitorTransform::Degrees90Flipped,
        scale: decimal(1, 0),
        bit_depth: 8,
        vrr: MonitorVrrMode::Default,
        mirror: None,
    };
    assert_eq!(
        settings.to_keyword_string("DP-1"),
        "DP-1,1920x1080,1920x0,1,transform,5,bitdepth,8"
    );
}

#[test]
fn vrr_segment_follows_the_bit_depth() {
    let mut settings = MonitorSettings::default();
    settings.bit_depth = 10;
    settings.vrr = MonitorVrrMode::On;
    assert_eq!(
        settings.to_keyword_string("DP-2"),
        "DP-2,preferred,auto,1,transform,0,bitdepth,10,vrr,1"
    );
    settings.vrr = MonitorVrrMode::Off;
    assert_eq!(
        settings.to_keyword_string("DP-2"),
        "DP-2,preferred,auto,1,transform,0,bitdepth,10,vrr,0"
    );
    settings.vrr = MonitorVrrMode::Fullscreen;
    assert_eq!(
        settings.to_keyword_string("DP-2"),
        "DP-2,preferred,auto,1,transform,0,bitdepth,10,vrr,2"
    );
    settings.vrr = MonitorVrrMode::Default;
    assert!(!settings.to_keyword_string("DP-2").contains("vrr"));
}

#[test]
fn mirror_segment_ends_the_line() {
    let mut settings = MonitorSettings::default();
    settings.mirror = Some("DP-1".to_string());
    assert_eq!(
        settings.to_keyword_string("HDMI-A-1"),
        "HDMI-A-1,preferred,auto,1,transform,0,bitdepth,8,mirror,DP-1"
    );
    settings.vrr = MonitorVrrMode::Fullscreen;
    assert_eq!(
        settings.to_keyword_string("HDMI-A-1"),
        "HDMI-A-1,preferred,auto,1,transform,0,bitdepth,8,vrr,2,mirror,DP-1"
    );
    settings.mirror = None;
    assert!(!settings.to_keyword_string("HDMI-A-1").contains("mirror"));
}

#[test]
fn manual_resolution_with_and_without_refresh() {
    let mut settings = MonitorSettings::default();
    settings.resolution = MonitorResolution::Manual { width: 2560, height: 1440, refresh: None };
    assert_eq!(
        settings.to_keyword_string("DP-3"),
        "DP-3,2560x1440,auto,1,transform,0,bitdepth,8"
    );
    settings.resolution =
        MonitorResolution::Manual { width: 2560, height: 1440, refresh: Some(decimal(144, 0)) };
    assert_eq!(
        settings.to_keyword_string("DP-3"),
        "DP-3,2560x1440@144,auto,1,transform,0,bitdepth,8"
    );
    settings.resolution =
        MonitorResolution::Manual { width: 1920, height: 1080, refresh: Some(decimal(5994, -2)) };
    assert_eq!(
        settings.to_keyword_string("DP-3"),
        "DP-3,1920x1080@59.94,auto,1,transform,0,bitdepth,8"
    );
    settings.resolution = MonitorResolution::Manual { width: 0, height: 0, refresh: None };
    assert_eq!(settings.to_keyword_string("DP-3"), "DP-3,0x0,auto,1,transform,0,bitdepth,8");
}

#[test]
fn named_resolutions() {
    let mut settings = MonitorSettings::default();
    settings.resolution = MonitorResolution::HighResolution;
    assert_eq!(settings.to_keyword_string("X"), "X,highres,auto,1,transform,0,bitdepth,8");
    settings.resolution = MonitorResolution::HighRefresh;
    assert_eq!(settings.to_keyword_string("X"), "X,highrr,auto,1,transform,0,bitdepth,8");
}

#[test]
fn modeline_resolution() {
    let mut settings = MonitorSettings::default();
    settings.resolution = MonitorResolution::Modeline(desk_mode());
    settings.position = MonitorPosition::Manual { x: 0, y: 1080 };
    assert_eq!(
        settings.to_keyword_string("HDMI-A-1"),
        "HDMI-A-1,modeline 172.8 1920 2040 2248 2576 1080 1081 1084 1118 -hsync +vsync,\
         0x1080,1,transform,0,bitdepth,8"
    );
}

#[test]
fn modeline_keeps_flags_as_stored() {
    let mut mode = desk_mode();
    assert_eq!(mode.to_string(), "172.8 1920 2040 2248 2576 1080 1081 1084 1118 -hsync +vsync");
    mode.flags = vec![];
    assert_eq!(mode.to_string(), "172.8 1920 2040 2248 2576 1080 1081 1084 1118");
    mode.flags = vec![
        MonitorModeFlag::PHSync,
        MonitorModeFlag::NHSync,
        MonitorModeFlag::PHSync,
        MonitorModeFlag::NVSync,
    ];
    assert_eq!(
        mode.to_string(),
        "172.8 1920 2040 2248 2576 1080 1081 1084 1118 +hsync -hsync +hsync -vsync"
    );
}

#[test]
fn modeline_counters_at_their_limits() {
    let mode = MonitorMode {
        clock: decimal(0, 0),
        hdisplay: 0,
        hsync_start: 65535,
        hsync_end: 9,
        htotal: 10,
        vdisplay: 99,
        vsync_start: 100,
        vsync_end: 1000,
        vtotal: 65535,
        flags: vec![MonitorModeFlag::PVSync],
    };
    assert_eq!(mode.to_string(), "0 0 65535 9 10 99 100 1000 65535 +vsync");
}

#[test]
fn flag_symbols() {
    assert_eq!(MonitorModeFlag::PHSync.to_string(), "+hsync");
    assert_eq!(MonitorModeFlag::NHSync.to_string(), "-hsync");
    assert_eq!(MonitorModeFlag::PVSync.to_string(), "+vsync");
    assert_eq!(MonitorModeFlag::NVSync.to_string(), "-vsync");
    assert_eq!(MonitorModeFlag::NVSync.as_str(), "-vsync");
}

#[test]
fn transform_codes() {
    assert_eq!(MonitorTransform::Normal.code(), 0);
    assert_eq!(MonitorTransform::Degrees90.code(), 1);
    assert_eq!(MonitorTransform::Degrees180.code(), 2);
    assert_eq!(MonitorTransform::Degrees270.code(), 3);
    assert_eq!(MonitorTransform::Flipped.code(), 4);
    assert_eq!(MonitorTransform::Degrees90Flipped.code(), 5);
    assert_eq!(MonitorTransform::Degrees180Flipped.code(), 6);
    assert_eq!(MonitorTransform::Degrees270Flipped.code(), 7);
}

#[test]
fn vrr_codes() {
    assert_eq!(MonitorVrrMode::Off.code(), 0);
    assert_eq!(MonitorVrrMode::On.code(), 1);
    assert_eq!(MonitorVrrMode::Fullscreen.code(), 2);
    assert_eq!(MonitorVrrMode::Default.code(), 255);
}

#[test]
fn every_transform_shows_its_code_in_the_line() {
    let transforms = [
        MonitorTransform::Normal,
        MonitorTransform::Degrees90,
        MonitorTransform::Degrees180,
        MonitorTransform::Degrees270,
        MonitorTransform::Flipped,
        MonitorTransform::Degrees90Flipped,
        MonitorTransform::Degrees180Flipped,
        MonitorTransform::Degrees270Flipped,
    ];
    for (code, transform) in transforms.iter().enumerate() {
        let mut settings = MonitorSettings::default();
        settings.transform = *transform;
        assert_eq!(
            settings.to_keyword_string("DP-1"),
            format!("DP-1,preferred,auto,1,transform,{},bitdepth,8", code)
        );
    }
}

#[test]
fn positions_may_be_negative() {
    let mut settings = MonitorSettings::default();
    settings.position = MonitorPosition::Manual { x: -1920, y: -1 };
    assert_eq!(
        settings.to_keyword_string("DP-1"),
        "DP-1,preferred,-1920x-1,1,transform,0,bitdepth,8"
    );
    settings.position = MonitorPosition::Manual { x: isize::MIN, y: isize::MAX };
    assert_eq!(
        settings.to_keyword_string("DP-1"),
        format!("DP-1,preferred,{}x{},1,transform,0,bitdepth,8", isize::MIN, isize::MAX)
    );
}

#[test]
fn widest_integers() {
    let mut settings = MonitorSettings::default();
    settings.resolution =
        MonitorResolution::Manual { width: usize::MAX, height: usize::MAX - 1, refresh: None };
    settings.bit_depth = u32::MAX;
    assert_eq!(
        settings.to_keyword_string("DP-1"),
        format!(
            "DP-1,{}x{},auto,1,transform,0,bitdepth,4294967295",
            usize::MAX,
            usize::MAX - 1
        )
    );
}

#[test]
fn fractional_scale() {
    let mut settings = MonitorSettings::default();
    settings.scale = decimal(15, -1);
    assert_eq!(
        settings.to_keyword_string("eDP-1"),
        "eDP-1,preferred,auto,1.5,transform,0,bitdepth,8"
    );
    settings.scale = decimal(1666667, -6);
    assert_eq!(
        settings.to_keyword_string("eDP-1"),
        "eDP-1,preferred,auto,1.666667,transform,0,bitdepth,8"
    );
}

#[test]
fn every_optional_part_at_once() {
    let settings = MonitorSettings {
        resolution: MonitorResolution::Manual {
            width: 3840,
            height: 2160,
            refresh: Some(decimal(11988, -2)),
        },
        position: MonitorPosition::Manual { x: -3840, y: 0 },
        transform: MonitorTransform::Degrees270,
        scale: decimal(125, -2),
        bit_depth: 10,
        vrr: MonitorVrrMode::Fullscreen,
        mirror: Some("eDP-1".to_string()),
    };
    assert_eq!(
        settings.to_keyword_string("DP-4"),
        "DP-4,3840x2160@119.88,-3840x0,1.25,transform,3,bitdepth,10,vrr,2,mirror,eDP-1"
    );
}

#[test]
fn names_are_written_as_they_are() {
    let mut settings = MonitorSettings::default();
    assert_eq!(
        settings.to_keyword_string("desc:Some Maker 27\" (DP-1)"),
        "desc:Some Maker 27\" (DP-1),preferred,auto,1,transform,0,bitdepth,8"
    );
    assert_eq!(
        settings.to_keyword_string("a,b"),
        "a,b,preferred,auto,1,transform,0,bitdepth,8"
    );
    settings.mirror = Some("x,y z".to_string());
    assert_eq!(
        settings.to_keyword_string("Ünïcode"),
        "Ünïcode,preferred,auto,1,transform,0,bitdepth,8,mirror,x,y z"
    );
    settings.mirror = Some(String::new());
    assert_eq!(
        settings.to_keyword_string("DP-1"),
        "DP-1,preferred,auto,1,transform,0,bitdepth,8,mirror,"
    );
}

#[test]
fn values_that_make_no_sense_are_written_all_the_same() {
    let mut settings = MonitorSettings::default();
    settings.resolution =
        MonitorResolution::Manual { width: 0, height: 1, refresh: Some(decimal(0, 0)) };
    settings.scale = Decimal::Finite { negative: true, mantissa: 25, exponent: -1 };
    settings.bit_depth = 0;
    assert_eq!(
        settings.to_keyword_string("DP-1"),
        "DP-1,0x1@0,auto,-2.5,transform,0,bitdepth,0"
    );
    settings.scale = Decimal::NotANumber;
    assert_eq!(
        settings.to_keyword_string("DP-1"),
        "DP-1,0x1@0,auto,NaN,transform,0,bitdepth,0"
    );
    settings.scale = Decimal::Infinite { negative: true };
    assert_eq!(
        settings.to_keyword_string("DP-1"),
        "DP-1,0x1@0,auto,-inf,transform,0,bitdepth,0"
    );
}

#[test]
fn lines_agree_with_floats_as_the_platform_prints_them() {
    let scales = [1.0f32, 1.5, 1.25, 2.0, 0.5, 1.666667, 1.2, 0.1];
    for scale in scales {
        let mut settings = MonitorSettings::default();
        settings.scale = match Decimal::parse(&scale.to_string()) {
            Some(number) => number,
            None => panic!("{} was not read", scale),
        };
        assert_eq!(
            settings.to_keyword_string("eDP-1"),
            format!("eDP-1,preferred,auto,{},transform,0,bitdepth,8", scale)
        );
    }
    let rate = 59.94f32;
    let mut settings = MonitorSettings::default();
    settings.resolution = MonitorResolution::Manual {
        width: 1920,
        height: 1080,
        refresh: Decimal::parse(&rate.to_string()),
    };
    assert_eq!(
        settings.to_keyword_string("DP-1"),
        format!("DP-1,1920x1080@{},auto,1,transform,0,bitdepth,8", rate)
    );
    let clock = 172.80f32;
    let mut mode = desk_mode();
    mode.clock = match Decimal::parse(&clock.to_string()) {
        Some(number) => number,
        None => panic!("{} was not read", clock),
    };
    assert_eq!(
        mode.to_string(),
        format!("{} 1920 2040 2248 2576 1080 1081 1084 1118 -hsync +vsync", clock)
    );
}
