use wdm::backend::Request;
use wdm::config::{Config, Mode, Output, Transform};
use wdm::udev::{
    choose_gpu, connector_name, does_fit, free_crtc, needs_probe, pick_mode, retry_seat,
    scan_connectors, should_send_frames, Frame, Head, Offered, Plug, Plugged, Seat, SeatStep, SEAT_RETRY_TIMEOUT,
};

fn offered(width: u16, height: u16, vrefresh: u32, preferred: bool) -> Offered {
    Offered {
        width,
        height,
        vrefresh,
        preferred,
    }
}

fn wanted(width: u16, height: u16, refresh_mhz: Option<u32>) -> Option<Mode> {
    Some(Mode {
        width,
        height,
        refresh_mhz,
    })
}

#[test]
fn a_wanted_mode_wins_and_a_missing_one_leaves_no_monitor_dark() {
    let modes = vec![
        offered(1280, 720, 60, false),
        offered(1920, 1080, 50, false),
        offered(1920, 1080, 60, false),
        offered(2560, 1440, 60, true),
    ];
    assert_eq!(pick_mode(&modes, None), Some(3));
    assert_eq!(pick_mode(&modes, wanted(1920, 1080, None)), Some(1));
    // 59.94 is what a mode that says 60 really is.
    assert_eq!(pick_mode(&modes, wanted(1920, 1080, Some(59_940))), Some(2));
    assert_eq!(pick_mode(&modes, wanted(1920, 1080, Some(144_000))), Some(3));
    assert_eq!(pick_mode(&modes, wanted(800, 600, None)), Some(3));
    assert_eq!(pick_mode(&modes[..2].to_vec(), None), Some(0));
    assert_eq!(pick_mode(&vec![], wanted(800, 600, None)), None);
}

#[test]
fn a_mode_fits_by_its_size_and_its_rate() {
    let mode = offered(1920, 1080, 60, false);
    assert!(does_fit(mode, wanted(1920, 1080, Some(59_940)).unwrap()));
    assert!(does_fit(mode, wanted(1920, 1080, None).unwrap()));
    assert!(!does_fit(mode, wanted(1920, 1080, Some(144_000)).unwrap()));
    assert!(!does_fit(mode, wanted(1280, 720, None).unwrap()));
}

#[test]
fn rates_a_hertz_apart_are_different() {
    let modes = vec![offered(1920, 1080, 60, false), offered(1, 1, 1, true)];
    assert_eq!(pick_mode(&modes, wanted(1920, 1080, Some(60_999))), Some(0));
    assert_eq!(pick_mode(&modes, wanted(1920, 1080, Some(61_000))), Some(1));
    assert_eq!(pick_mode(&modes, wanted(1920, 1080, Some(59_000))), Some(1));
}

#[test]
fn crtcs_are_not_shared() {
    let encoders = vec![None, Some(vec![1, 2]), Some(vec![3])];
    assert_eq!(free_crtc(&encoders, &vec![]), Some(1));
    assert_eq!(free_crtc(&encoders, &vec![1]), Some(2));
    assert_eq!(free_crtc(&encoders, &vec![1, 2]), Some(3));
    assert_eq!(free_crtc(&encoders, &vec![1, 2, 3]), None);
}

#[test]
fn the_primary_gpu_is_preferred() {
    let path = |s: &str| Some(s.to_owned());
    assert_eq!(choose_gpu(path("a"), path("b"), path("c")), path("a"));
    assert_eq!(choose_gpu(None, path("b"), path("c")), path("b"));
    assert_eq!(choose_gpu(None, None, path("c")), path("c"));
    assert_eq!(choose_gpu(None, None, None), None);
}

#[test]
fn monitors_are_asked_only_where_the_kernel_does_not_know() {
    assert!(needs_probe(Plug::Unknown));
    assert!(needs_probe(Plug::Unreadable));
    assert!(!needs_probe(Plug::Connected));
    assert!(!needs_probe(Plug::Disconnected));
    assert_eq!(connector_name("HDMI-A", 1), "HDMI-A-1");
}

#[test]
fn the_seat_is_waited_for_and_not_for_ever() {
    assert!(retry_seat(5, 5 + SEAT_RETRY_TIMEOUT));
    assert!(!retry_seat(5 + SEAT_RETRY_TIMEOUT, 5 + SEAT_RETRY_TIMEOUT));
}

fn plugged(connector: u32, name: &str) -> Plugged {
    Plugged {
        connector,
        name: name.to_owned(),
    }
}

fn head(crtc: u32, connector: u32, name: &str) -> Head {
    Head {
        crtc,
        connector,
        name: name.to_owned(),
    }
}

#[test]
fn a_scan_follows_the_cables_and_the_configuration() {
    let mut config = Config::default();
    config.output.push(Output {
        connector: "DP-3".to_owned(),
        mode: None,
        scale: None,
        transform: Transform::Normal,
        enable: false,
    });
    let heads = vec![head(50, 1, "DP-1"), head(51, 2, "DP-2")];
    let found = vec![plugged(2, "DP-2"), plugged(3, "DP-3"), plugged(4, "DP-4")];
    let scan = scan_connectors(&heads, &found, &config);
    assert_eq!(scan.take_down, [50]);
    assert_eq!(scan.bring_up, [2]);
}

#[test]
fn an_output_that_was_moved_to_another_connector_comes_up_again() {
    // The name is the old one's, whose connector is empty now.
    let scan = scan_connectors(
        &vec![head(50, 1, "DP-1")],
        &vec![plugged(9, "DP-1")],
        &Config::default(),
    );
    assert_eq!(scan.take_down, [50]);
    assert_eq!(scan.bring_up, [0]);
}

#[test]
fn a_burst_is_one_scan() {
    let mut seat = Seat::new();
    seat.opened(7);
    for _ in 0..3 {
        assert!(seat.request(Request::RescanConnectors).is_empty());
    }
    assert!(matches!(
        &seat.request(Request::SwitchVt(2))[..],
        [SeatStep::ChangeVt(2)]
    ));
    assert!(matches!(&seat.drained()[..], [SeatStep::ScanConnectors]));
    assert!(seat.drained().is_empty());
}

#[test]
fn a_paused_seat_draws_nothing_and_comes_back_whole() {
    let mut seat = Seat::new();
    assert!(seat.active);
    seat.opened(7);
    assert!(matches!(
        &seat.request(Request::SessionActive(false))[..],
        [SeatStep::SuspendInput, SeatStep::PauseDevice]
    ));
    assert!(!seat.active);
    assert!(matches!(
        &seat.request(Request::SessionActive(true))[..],
        [
            SeatStep::ResumeInput,
            SeatStep::ActivateDevice,
            SeatStep::ResetBuffers,
            SeatStep::ConfigureLayers
        ]
    ));
    assert!(seat.active);
}

#[test]
fn only_the_device_in_use_matters() {
    let mut seat = Seat::new();
    assert!(matches!(
        &seat.request(Request::DeviceAdded("/dev/dri/card0".to_owned()))[..],
        [SeatStep::OpenDevice(path)] if path == "/dev/dri/card0"
    ));
    seat.opened(7);
    assert!(seat
        .request(Request::DeviceAdded("/dev/dri/card1".to_owned()))
        .is_empty());
    assert!(matches!(
        &seat.request(Request::VBlank(50))[..],
        [SeatStep::FrameSubmitted(50)]
    ));
    assert!(seat.request(Request::DeviceRemoved(8)).is_empty());
    assert!(matches!(
        &seat.request(Request::DeviceRemoved(7))[..],
        [SeatStep::CloseDevice, SeatStep::ClearOutputs]
    ));
    assert_eq!(seat.device, None);
    assert!(seat.request(Request::VBlank(50)).is_empty());
}

#[test]
fn an_idle_screen_asks_for_no_frames() {
    assert!(!should_send_frames(&vec![Frame::Empty, Frame::Failed]));
    assert!(should_send_frames(&vec![Frame::Empty, Frame::Drawn]));
    assert!(!should_send_frames(&vec![]));
}
