//! What the backend on the real display decides: which device to open, which
//! outputs to bring up and how, and what to do when the seat or a cable moves.
//!
//! Devices, connectors and CRTCs are known here by their numbers.
use vstd::prelude::*;

use crate::backend::Request;
use crate::config::{enabled, Config, Mode};
use crate::text::{decimal, number, push_str, same};

verus! {

/// How long to wait for the seat after a session exits, in nanoseconds.
///
/// The session before has to be torn down first, and failing would leave the
/// machine without a login prompt.
pub const SEAT_RETRY_TIMEOUT: u64 = 10_000_000_000;

/// The pause between two tries for the seat.
pub const SEAT_RETRY_PAUSE: u64 = 200_000_000;

/// Whether to try again for a seat that is not available yet.
pub fn retry_seat(now: u64, deadline: u64) -> (r: bool)
    ensures
        r == (now < deadline),
{
    now < deadline
}

/// The GPU to open: the one marked primary, else the first of all, else the first
/// that was there at the start. Whichever is listed first is not always the right
/// one of two.
pub fn choose_gpu(primary: Option<String>, all: Option<String>, initial: Option<String>) -> (r:
    Option<String>)
    ensures
        r == (match primary {
            Some(_) => primary,
            None => match all {
                Some(_) => all,
                None => initial,
            },
        }),
{
    match primary {
        Some(path) => Some(path),
        None => match all {
            Some(path) => Some(path),
            None => initial,
        },
    }
}

/// A mode that a connector offers.
#[derive(Debug, Clone, Copy, PartialEq, Eq, Structural)]
pub struct Offered {
    pub width: u16,
    pub height: u16,
    /// Refresh rate in whole hertz.
    pub vrefresh: u32,
    pub preferred: bool,
}

/// Whether an offered mode is the wanted one.
///
/// The offered rate is in whole hertz, so anything less than one hertz off is the
/// same: 59.94 matches a mode that says 60.
pub open spec fn fits(offered: Offered, wanted: Mode) -> bool {
    &&& offered.width == wanted.width
    &&& offered.height == wanted.height
    &&& match wanted.refresh_mhz {
        None => true,
        Some(mhz) => -1000 < offered.vrefresh * 1000 - mhz < 1000,
    }
}

/// The first mode that fits.
pub open spec fn first_fit(modes: Seq<Offered>, wanted: Mode) -> Option<int>
    decreases modes.len(),
{
    if modes.len() == 0 {
        None
    } else if fits(modes[0], wanted) {
        Some(0)
    } else {
        match first_fit(modes.skip(1), wanted) {
            Some(i) => Some(i + 1),
            None => None,
        }
    }
}

/// The first preferred mode.
pub open spec fn first_preferred(modes: Seq<Offered>) -> Option<int>
    decreases modes.len(),
{
    if modes.len() == 0 {
        None
    } else if modes[0].preferred {
        Some(0)
    } else {
        match first_preferred(modes.skip(1)) {
            Some(i) => Some(i + 1),
            None => None,
        }
    }
}

/// The mode to set: the wanted one if it is offered, else the preferred, else the
/// first. A mode that is not offered any more must not leave a monitor dark.
pub open spec fn picked(modes: Seq<Offered>, wanted: Option<Mode>) -> Option<int> {
    if wanted is Some && first_fit(modes, wanted->0) is Some {
        first_fit(modes, wanted->0)
    } else if first_preferred(modes) is Some {
        first_preferred(modes)
    } else if modes.len() > 0 {
        Some(0)
    } else {
        None
    }
}

/// Whether an offered mode is the wanted one.
pub fn does_fit(offered: Offered, wanted: Mode) -> (r: bool)
    ensures
        r == fits(offered, wanted),
{
    if offered.width != wanted.width || offered.height != wanted.height {
        return false;
    }
    match wanted.refresh_mhz {
        None => true,
        Some(mhz) => {
            let reported: u64 = offered.vrefresh as u64 * 1000;
            let mhz: u64 = mhz as u64;
            if reported >= mhz {
                reported - mhz < 1000
            } else {
                mhz - reported < 1000
            }
        },
    }
}

/// Choose the mode to set on a connector, by its index.
pub fn pick_mode(modes: &Vec<Offered>, wanted: Option<Mode>) -> (r: Option<usize>)
    ensures
        match r {
            Some(i) => picked(modes@, wanted) == Some(i as int) && i < modes@.len(),
            None => picked(modes@, wanted) is None,
        },
{
    let ghost all = modes@;
    assert(all.skip(0) =~= all);
    if let Some(mode) = wanted {
        for i in 0..modes.len()
            invariant
                all == modes@,
                wanted == Some(mode),
                match first_fit(all.skip(i as int), mode) {
                    Some(k) => first_fit(all, mode) == Some(i + k),
                    None => first_fit(all, mode) is None,
                },
        {
            proof {
                assert(all.skip(i as int).skip(1) =~= all.skip(i as int + 1));
                assert(all.skip(i as int)[0] == all[i as int]);
            }
            if does_fit(modes[i], mode) {
                return Some(i);
            }
        }
    }
    for i in 0..modes.len()
        invariant
            all == modes@,
            match first_preferred(all.skip(i as int)) {
                Some(k) => first_preferred(all) == Some(i + k),
                None => first_preferred(all) is None,
            },
            wanted is Some ==> first_fit(all, wanted->0) is None,
    {
        proof {
            assert(all.skip(i as int).skip(1) =~= all.skip(i as int + 1));
            assert(all.skip(i as int)[0] == all[i as int]);
        }
        if modes[i].preferred {
            return Some(i);
        }
    }
    if modes.len() > 0 {
        Some(0)
    } else {
        None
    }
}

/// A connector that offers anything gets a mode, whatever the configuration says.
pub proof fn law_no_monitor_stays_dark(modes: Seq<Offered>, wanted: Option<Mode>)
    ensures
        modes.len() > 0 <==> picked(modes, wanted) is Some,
        picked(modes, wanted) matches Some(i) ==> 0 <= i < modes.len(),
    decreases modes.len(),
{
    if let Some(wanted) = wanted {
        lemma_first_fit(modes, wanted);
    }
    lemma_first_preferred(modes);
}

proof fn lemma_first_fit(modes: Seq<Offered>, wanted: Mode)
    ensures
        first_fit(modes, wanted) matches Some(i) ==> 0 <= i < modes.len(),
    decreases modes.len(),
{
    if modes.len() > 0 {
        lemma_first_fit(modes.skip(1), wanted);
    }
}

proof fn lemma_first_preferred(modes: Seq<Offered>)
    ensures
        first_preferred(modes) matches Some(i) ==> 0 <= i < modes.len(),
    decreases modes.len(),
{
    if modes.len() > 0 {
        lemma_first_preferred(modes.skip(1));
    }
}

/// Whether a number is among some.
fn holds(v: &Vec<u32>, x: u32) -> (r: bool)
    ensures
        r == v@.contains(x),
{
    for i in 0..v.len()
        invariant
            forall|j: int| 0 <= j < i ==> v@[j] != x,
    {
        if v[i] == x {
            return true;
        }
    }
    false
}

/// The first of some CRTCs that is not in use.
pub open spec fn first_free(crtcs: Seq<u32>, used: Seq<u32>) -> Option<u32>
    decreases crtcs.len(),
{
    if crtcs.len() == 0 {
        None
    } else if !used.contains(crtcs[0]) {
        Some(crtcs[0])
    } else {
        first_free(crtcs.skip(1), used)
    }
}

/// The first free CRTC of the first encoder that has one; an encoder that cannot be
/// read has none.
pub open spec fn crtc_for(encoders: Seq<Option<Vec<u32>>>, used: Seq<u32>) -> Option<u32>
    decreases encoders.len(),
{
    if encoders.len() == 0 {
        None
    } else {
        match encoders[0] {
            Some(crtcs) if first_free(crtcs@, used) is Some => first_free(crtcs@, used),
            _ => crtc_for(encoders.skip(1), used),
        }
    }
}

fn find_free(crtcs: &Vec<u32>, used: &Vec<u32>) -> (r: Option<u32>)
    ensures
        r == first_free(crtcs@, used@),
{
    let ghost all = crtcs@;
    assert(all.skip(0) =~= all);
    for i in 0..crtcs.len()
        invariant
            all == crtcs@,
            first_free(all, used@) == first_free(all.skip(i as int), used@),
    {
        proof {
            assert(all.skip(i as int).skip(1) =~= all.skip(i as int + 1));
            assert(all.skip(i as int)[0] == all[i as int]);
        }
        if !holds(used, crtcs[i]) {
            return Some(crtcs[i]);
        }
    }
    None
}

/// Find a CRTC that one of a connector's encoders can drive and that is not in use.
///
/// For each encoder, `encoders` holds the CRTCs it can drive, or nothing where it
/// could not be read.
pub fn free_crtc(encoders: &Vec<Option<Vec<u32>>>, used: &Vec<u32>) -> (r: Option<u32>)
    ensures
        r == crtc_for(encoders@, used@),
{
    let ghost all = encoders@;
    assert(all.skip(0) =~= all);
    for i in 0..encoders.len()
        invariant
            all == encoders@,
            crtc_for(all, used@) == crtc_for(all.skip(i as int), used@),
    {
        proof {
            assert(all.skip(i as int).skip(1) =~= all.skip(i as int + 1));
            assert(all.skip(i as int)[0] == all[i as int]);
        }
        if let Some(crtcs) = &encoders[i] {
            let found = find_free(crtcs, used);
            if found.is_some() {
                return found;
            }
        }
    }
    None
}

/// No CRTC drives two connectors: the one that is found is in use by none.
pub proof fn law_crtcs_are_not_shared(encoders: Seq<Option<Vec<u32>>>, used: Seq<u32>)
    ensures
        crtc_for(encoders, used) matches Some(crtc) ==> !used.contains(crtc),
    decreases encoders.len(),
{
    if encoders.len() > 0 {
        if let Some(crtcs) = encoders[0] {
            lemma_first_free(crtcs@, used);
        }
        law_crtcs_are_not_shared(encoders.skip(1), used);
    }
}

proof fn lemma_first_free(crtcs: Seq<u32>, used: Seq<u32>)
    ensures
        first_free(crtcs, used) matches Some(crtc) ==> !used.contains(crtc),
    decreases crtcs.len(),
{
    if crtcs.len() > 0 {
        lemma_first_free(crtcs.skip(1), used);
    }
}

/// What is known of a connector without asking the monitor.
#[derive(Debug, Clone, Copy, PartialEq, Eq, Structural)]
pub enum Plug {
    Connected,
    Disconnected,
    Unknown,
    /// It could not be read.
    Unreadable,
}

/// Whether to ask the monitor: only where the kernel does not know, because that
/// takes a tenth of a second during which nothing else happens.
pub fn needs_probe(plug: Plug) -> (r: bool)
    ensures
        r == (plug == Plug::Unknown || plug == Plug::Unreadable),
{
    match plug {
        Plug::Unknown | Plug::Unreadable => true,
        _ => false,
    }
}

/// The name of a connector: its kind and its number.
pub fn connector_name(kind: &str, id: u32) -> (r: String)
    ensures
        r@ == kind@ + "-"@ + decimal(id as nat),
{
    let mut s = kind.to_owned();
    push_str(&mut s, "-");
    push_str(&mut s, &number(id as u64));
    s
}

/// A connector that something is plugged into.
#[derive(Debug)]
pub struct Plugged {
    pub connector: u32,
    pub name: String,
}

/// An output that is up: the CRTC that drives a connector.
#[derive(Debug)]
pub struct Head {
    pub crtc: u32,
    pub connector: u32,
    pub name: String,
}

/// Whether a connector is among those that something is plugged into.
pub open spec fn is_live(plugged: Seq<Plugged>, connector: u32) -> bool {
    exists|i: int| 0 <= i < plugged.len() && (#[trigger] plugged[i]).connector == connector
}

/// Whether an output of a name is up and stays up.
pub open spec fn is_up(heads: Seq<Head>, plugged: Seq<Plugged>, name: Seq<char>) -> bool {
    exists|i: int|
        0 <= i < heads.len() && (#[trigger] heads[i]).name@ == name && is_live(
            plugged,
            heads[i].connector,
        )
}

/// The CRTCs of the outputs whose connector has nothing plugged in any more.
pub open spec fn dropped(heads: Seq<Head>, plugged: Seq<Plugged>) -> Seq<u32>
    decreases heads.len(),
{
    if heads.len() == 0 {
        seq![]
    } else if is_live(plugged, heads.last().connector) {
        dropped(heads.drop_last(), plugged)
    } else {
        dropped(heads.drop_last(), plugged).push(heads.last().crtc)
    }
}

/// The connectors to bring up, among the first `n`: those that are not up and not
/// disabled.
pub open spec fn wanted_up(
    heads: Seq<Head>,
    plugged: Seq<Plugged>,
    config: Config,
    n: int,
) -> Seq<usize>
    decreases n,
{
    if n <= 0 {
        seq![]
    } else {
        let before = wanted_up(heads, plugged, config, n - 1);
        let name = plugged[n - 1].name@;
        if !is_up(heads, plugged, name) && enabled(config.output@, name) {
            before.push((n - 1) as usize)
        } else {
            before
        }
    }
}

/// What a scan of the connectors calls for.
#[derive(Debug)]
pub struct Scan {
    /// The CRTCs of the outputs to take down.
    pub take_down: Vec<u32>,
    /// Which of the plugged connectors to bring up.
    pub bring_up: Vec<usize>,
}

fn live(plugged: &Vec<Plugged>, connector: u32) -> (r: bool)
    ensures
        r == is_live(plugged@, connector),
{
    for i in 0..plugged.len()
        invariant
            forall|j: int| 0 <= j < i ==> (#[trigger] plugged@[j]).connector != connector,
    {
        if plugged[i].connector == connector {
            return true;
        }
    }
    false
}

fn up(heads: &Vec<Head>, plugged: &Vec<Plugged>, name: &str) -> (r: bool)
    ensures
        r == is_up(heads@, plugged@, name@),
{
    for i in 0..heads.len()
        invariant
            forall|j: int|
                0 <= j < i ==> !((#[trigger] heads@[j]).name@ == name@ && is_live(
                    plugged@,
                    heads@[j].connector,
                )),
    {
        if same(&heads[i].name, name) && live(plugged, heads[i].connector) {
            return true;
        }
    }
    false
}

/// Decide which outputs to take down and which to bring up.
///
/// An output whose connector is empty must go, or commits to its CRTC would fail;
/// one that is disabled is left dark.
pub fn scan_connectors(heads: &Vec<Head>, plugged: &Vec<Plugged>, config: &Config) -> (r: Scan)
    ensures
        r.take_down@ == dropped(heads@, plugged@),
        r.bring_up@ == wanted_up(heads@, plugged@, *config, plugged@.len() as int),
{
    let mut take_down: Vec<u32> = Vec::new();
    for i in 0..heads.len()
        invariant
            take_down@ == dropped(heads@.take(i as int), plugged@),
    {
        proof {
            assert(heads@.take(i as int + 1).drop_last() =~= heads@.take(i as int));
        }
        if !live(plugged, heads[i].connector) {
            take_down.push(heads[i].crtc);
        }
    }
    assert(heads@.take(heads@.len() as int) =~= heads@);
    let mut bring_up: Vec<usize> = Vec::new();
    for i in 0..plugged.len()
        invariant
            bring_up@ == wanted_up(heads@, plugged@, *config, i as int),
    {
        if !up(heads, plugged, &plugged[i].name) && config.shows(&plugged[i].name) {
            bring_up.push(i);
        }
    }
    Scan { take_down, bring_up }
}

/// After a scan whatever is plugged in and not disabled is up or being brought up,
/// and a disabled output never is.
pub proof fn law_scans_cover_every_enabled_connector(
    heads: Seq<Head>,
    plugged: Seq<Plugged>,
    config: Config,
    n: int,
    i: int,
)
    requires
        0 <= i < n <= plugged.len() <= usize::MAX,
    ensures
        wanted_up(heads, plugged, config, n).contains(i as usize) <==> !is_up(
            heads,
            plugged,
            plugged[i].name@,
        ) && enabled(config.output@, plugged[i].name@),
    decreases n,
{
    let before = wanted_up(heads, plugged, config, n - 1);
    let all = wanted_up(heads, plugged, config, n);
    lemma_wanted_are_smaller(heads, plugged, config, n - 1);
    if i < n - 1 {
        law_scans_cover_every_enabled_connector(heads, plugged, config, n - 1, i);
        if before.contains(i as usize) {
            let k = choose|k: int| 0 <= k < before.len() && before[k] == i as usize;
            assert(all[k] == i as usize);
        }
        if all.contains(i as usize) {
            let k = choose|k: int| 0 <= k < all.len() && all[k] == i as usize;
            assert(k < before.len());
            assert(before[k] == i as usize);
        }
    } else {
        if !is_up(heads, plugged, plugged[i].name@) && enabled(config.output@, plugged[i].name@) {
            assert(all[before.len() as int] == i as usize);
        } else if all.contains(i as usize) {
            let k = choose|k: int| 0 <= k < all.len() && all[k] == i as usize;
            assert(before[k] < n - 1);
        }
    }
}

proof fn lemma_wanted_are_smaller(heads: Seq<Head>, plugged: Seq<Plugged>, config: Config, n: int)
    requires
        n <= plugged.len() <= usize::MAX,
    ensures
        forall|k: int|
            0 <= k < wanted_up(heads, plugged, config, n).len() ==> #[trigger] wanted_up(
                heads,
                plugged,
                config,
                n,
            )[k] < n,
    decreases n,
{
    if n > 0 {
        lemma_wanted_are_smaller(heads, plugged, config, n - 1);
        let before = wanted_up(heads, plugged, config, n - 1);
        let all = wanted_up(heads, plugged, config, n);
        assert forall|k: int| 0 <= k < all.len() implies #[trigger] all[k] < n by {
            if k < before.len() {
                assert(all[k] == before[k]);
            }
        }
    }
}

/// The seat and the device that is open, if one is.
#[derive(Debug, Clone, Copy, PartialEq, Eq, Structural)]
pub struct Seat {
    /// False while another VT is in front: nothing is drawn and nothing typed.
    pub active: bool,
    /// The device id of the open GPU.
    pub device: Option<u64>,
    /// Whether connectors are to be scanned once everything queued is dealt with.
    pub rescan: bool,
}

/// A step to be made outside.
#[derive(Debug)]
pub enum SeatStep {
    ChangeVt(i32),
    ResumeInput,
    SuspendInput,
    /// Take the device back, with its state reset: whoever had the VT may have left
    /// it in a state that every commit would fail in.
    ActivateDevice,
    /// Draw in full next: what is in the buffers is somebody else's.
    ResetBuffers,
    PauseDevice,
    ConfigureLayers,
    OpenDevice(String),
    CloseDevice,
    /// Tell the compositor that no output is left.
    ClearOutputs,
    FrameSubmitted(u32),
    ScanConnectors,
}

/// What a [`SeatStep`] says, with strings as character sequences.
#[verifier::ext_equal]
pub enum SeatStepView {
    ChangeVt(i32),
    ResumeInput,
    SuspendInput,
    ActivateDevice,
    ResetBuffers,
    PauseDevice,
    ConfigureLayers,
    OpenDevice(Seq<char>),
    CloseDevice,
    ClearOutputs,
    FrameSubmitted(u32),
    ScanConnectors,
}

impl View for SeatStep {
    type V = SeatStepView;

    open spec fn view(&self) -> SeatStepView {
        match self {
            SeatStep::ChangeVt(vt) => SeatStepView::ChangeVt(*vt),
            SeatStep::ResumeInput => SeatStepView::ResumeInput,
            SeatStep::SuspendInput => SeatStepView::SuspendInput,
            SeatStep::ActivateDevice => SeatStepView::ActivateDevice,
            SeatStep::ResetBuffers => SeatStepView::ResetBuffers,
            SeatStep::PauseDevice => SeatStepView::PauseDevice,
            SeatStep::ConfigureLayers => SeatStepView::ConfigureLayers,
            SeatStep::OpenDevice(path) => SeatStepView::OpenDevice(path@),
            SeatStep::CloseDevice => SeatStepView::CloseDevice,
            SeatStep::ClearOutputs => SeatStepView::ClearOutputs,
            SeatStep::FrameSubmitted(crtc) => SeatStepView::FrameSubmitted(*crtc),
            SeatStep::ScanConnectors => SeatStepView::ScanConnectors,
        }
    }
}

/// The views of steps.
pub open spec fn seat_steps(v: Seq<SeatStep>) -> Seq<SeatStepView> {
    Seq::new(v.len(), |i: int| v[i]@)
}

/// What a request makes of the seat, and the steps it calls for.
///
/// A second GPU is not opened while one is open, and the removal of another device
/// is nothing to the one that is.
pub open spec fn on_request(seat: Seat, request: Request) -> (Seat, Seq<SeatStepView>) {
    match request {
        Request::SwitchVt(vt) => (seat, seq![SeatStepView::ChangeVt(vt)]),
        Request::SessionActive(active) => (
            Seat { active, ..seat },
            if active {
                if seat.device is Some {
                    seq![
                        SeatStepView::ResumeInput,
                        SeatStepView::ActivateDevice,
                        SeatStepView::ResetBuffers,
                        SeatStepView::ConfigureLayers,
                    ]
                } else {
                    seq![SeatStepView::ResumeInput, SeatStepView::ConfigureLayers]
                }
            } else if seat.device is Some {
                seq![SeatStepView::SuspendInput, SeatStepView::PauseDevice]
            } else {
                seq![SeatStepView::SuspendInput]
            },
        ),
        Request::RescanConnectors => (Seat { rescan: true, ..seat }, seq![]),
        Request::DeviceAdded(path) => (
            seat,
            if seat.device is None {
                seq![SeatStepView::OpenDevice(path@)]
            } else {
                seq![]
            },
        ),
        Request::DeviceRemoved(id) => if seat.device == Some(id) {
            (
                Seat { device: None, ..seat },
                seq![SeatStepView::CloseDevice, SeatStepView::ClearOutputs],
            )
        } else {
            (seat, seq![])
        },
        Request::VBlank(crtc) => (
            seat,
            if seat.device is Some {
                seq![SeatStepView::FrameSubmitted(crtc)]
            } else {
                seq![]
            },
        ),
    }
}

impl Seat {
    /// A seat that was just taken.
    pub fn new() -> (r: Seat)
        ensures
            r == (Seat { active: true, device: None, rescan: false }),
    {
        Seat { active: true, device: None, rescan: false }
    }

    /// A device was opened.
    pub fn opened(&mut self, device: u64)
        ensures
            *final(self) == (Seat { device: Some(device), ..*old(self) }),
    {
        self.device = Some(device);
    }

    /// Act on one queued request.
    pub fn request(&mut self, request: Request) -> (steps: Vec<SeatStep>)
        ensures
            (*final(self), seat_steps(steps@)) == on_request(*old(self), request),
    {
        let mut steps: Vec<SeatStep> = Vec::new();
        let ghost wanted = on_request(*self, request).1;
        match request {
            Request::SwitchVt(vt) => {
                steps.push(SeatStep::ChangeVt(vt));
            },
            Request::SessionActive(active) => {
                self.active = active;
                if active {
                    steps.push(SeatStep::ResumeInput);
                    if self.device.is_some() {
                        steps.push(SeatStep::ActivateDevice);
                        steps.push(SeatStep::ResetBuffers);
                    }
                    steps.push(SeatStep::ConfigureLayers);
                } else {
                    steps.push(SeatStep::SuspendInput);
                    if self.device.is_some() {
                        steps.push(SeatStep::PauseDevice);
                    }
                }
            },
            Request::RescanConnectors => {
                self.rescan = true;
            },
            Request::DeviceAdded(path) => {
                if self.device.is_none() {
                    steps.push(SeatStep::OpenDevice(path));
                }
            },
            Request::DeviceRemoved(id) => {
                if self.device == Some(id) {
                    self.device = None;
                    steps.push(SeatStep::CloseDevice);
                    steps.push(SeatStep::ClearOutputs);
                }
            },
            Request::VBlank(crtc) => {
                if self.device.is_some() {
                    steps.push(SeatStep::FrameSubmitted(crtc));
                }
            },
        }
        assert(seat_steps(steps@) =~= wanted);
        steps
    }

    /// Everything queued has been dealt with.
    ///
    /// A cable that settles is reported in bursts, and a scan stalls the loop, so
    /// a burst is answered by one scan.
    pub fn drained(&mut self) -> (steps: Vec<SeatStep>)
        ensures
            *final(self) == (Seat { rescan: false, ..*old(self) }),
            seat_steps(steps@) == (if old(self).rescan {
                seq![SeatStepView::ScanConnectors]
            } else {
                seq![]
            }),
    {
        let mut steps: Vec<SeatStep> = Vec::new();
        if self.rescan {
            steps.push(SeatStep::ScanConnectors);
        }
        assert(seat_steps(steps@) =~= if self.rescan {
            seq![SeatStepView::ScanConnectors]
        } else {
            seq![]
        });
        self.rescan = false;
        steps
    }
}

/// The seat after these requests.
pub open spec fn seat_after(seat: Seat, requests: Seq<Request>) -> Seat
    decreases requests.len(),
{
    if requests.len() == 0 {
        seat
    } else {
        on_request(seat_after(seat, requests.drop_last()), requests.last()).0
    }
}

/// However many times the device is said to have changed, one scan follows, and
/// none where it was not.
pub proof fn law_a_burst_is_one_scan(seat: Seat, requests: Seq<Request>)
    requires
        !seat.rescan,
    ensures
        seat_after(seat, requests).rescan <==> exists|i: int|
            0 <= i < requests.len() && (#[trigger] requests[i]) is RescanConnectors,
    decreases requests.len(),
{
    if requests.len() > 0 {
        let init = requests.drop_last();
        law_a_burst_is_one_scan(seat, init);
        assert(requests[requests.len() - 1] == requests.last());
        if exists|i: int| 0 <= i < init.len() && (#[trigger] init[i]) is RescanConnectors {
            let i = choose|i: int| 0 <= i < init.len() && (#[trigger] init[i]) is RescanConnectors;
            assert(requests[i] is RescanConnectors);
        }
        if exists|i: int| 0 <= i < requests.len() && (#[trigger] requests[i]) is RescanConnectors {
            let i = choose|i: int|
                0 <= i < requests.len() && (#[trigger] requests[i]) is RescanConnectors;
            if i < init.len() {
                assert(init[i] is RescanConnectors);
            }
        }
    }
}

/// What drawing an output came to.
#[derive(Debug, Clone, Copy, PartialEq, Eq, Structural)]
pub enum Frame {
    /// Nothing had changed.
    Empty,
    Drawn,
    Failed,
}

/// Whether the greeter is asked for its next frame: only if something was drawn.
/// Asking for a frame that is not drawn makes an idle login screen a busy loop.
pub fn should_send_frames(frames: &Vec<Frame>) -> (r: bool)
    ensures
        r == frames@.contains(Frame::Drawn),
{
    for i in 0..frames.len()
        invariant
            forall|j: int| 0 <= j < i ==> frames@[j] != Frame::Drawn,
    {
        if frames[i] == Frame::Drawn {
            return true;
        }
    }
    false
}

/// A mode fits if it has the wanted size and, where a rate is wanted too, is less
/// than one hertz off.
pub proof fn law_when_a_mode_fits(offered: Offered, wanted: Mode)
    ensures
        fits(offered, wanted) ==> offered.width == wanted.width && offered.height == wanted.height,
        wanted.refresh_mhz is None && offered.width == wanted.width && offered.height
            == wanted.height ==> fits(offered, wanted),
        wanted.refresh_mhz matches Some(mhz) ==> (fits(offered, wanted) <==> {
            &&& offered.width == wanted.width
            &&& offered.height == wanted.height
            &&& offered.vrefresh * 1000 < mhz + 1000
            &&& mhz < offered.vrefresh * 1000 + 1000
        }),
        fits(offered, wanted) ==> fits(Offered { preferred: !offered.preferred, ..offered }, wanted),
{
}

/// The first mode that fits what is wanted is set, even if another is preferred.
pub proof fn law_the_wanted_mode_is_set(modes: Seq<Offered>, wanted: Mode, i: int)
    requires
        0 <= i < modes.len(),
        fits(modes[i], wanted),
        forall|j: int| 0 <= j < i ==> !fits(#[trigger] modes[j], wanted),
    ensures
        picked(modes, Some(wanted)) == Some(i),
    decreases i,
{
    if i > 0 {
        let rest = modes.skip(1);
        assert forall|j: int| 0 <= j < i - 1 implies !fits(#[trigger] rest[j], wanted) by {
            assert(rest[j] == modes[j + 1]);
        }
        assert(rest[i - 1] == modes[i]);
        law_the_wanted_mode_is_set(rest, wanted, i - 1);
        lemma_no_fit(rest, wanted);
        assert(!fits(modes[0], wanted));
    }
}

proof fn lemma_no_fit(modes: Seq<Offered>, wanted: Mode)
    ensures
        first_fit(modes, wanted) is None <==> forall|j: int|
            0 <= j < modes.len() ==> !fits(#[trigger] modes[j], wanted),
    decreases modes.len(),
{
    if modes.len() > 0 {
        let rest = modes.skip(1);
        lemma_no_fit(rest, wanted);
        if first_fit(modes, wanted) is None {
            assert forall|j: int| 0 <= j < modes.len() implies !fits(#[trigger] modes[j], wanted) by {
                if j > 0 {
                    assert(rest[j - 1] == modes[j]);
                }
            }
        } else if first_fit(rest, wanted) is Some {
            let j = choose|j: int| 0 <= j < rest.len() && fits(#[trigger] rest[j], wanted);
            assert(fits(modes[j + 1], wanted));
        } else {
            assert(fits(modes[0], wanted));
        }
    }
}

proof fn lemma_preferred_at(modes: Seq<Offered>, i: int)
    requires
        0 <= i < modes.len(),
        modes[i].preferred,
        forall|j: int| 0 <= j < i ==> !(#[trigger] modes[j]).preferred,
    ensures
        first_preferred(modes) == Some(i),
    decreases i,
{
    if i > 0 {
        let rest = modes.skip(1);
        assert forall|j: int| 0 <= j < i - 1 implies !(#[trigger] rest[j]).preferred by {
            assert(rest[j] == modes[j + 1]);
        }
        assert(rest[i - 1] == modes[i]);
        lemma_preferred_at(rest, i - 1);
        assert(!modes[0].preferred);
    }
}

proof fn lemma_none_preferred(modes: Seq<Offered>)
    requires
        forall|j: int| 0 <= j < modes.len() ==> !(#[trigger] modes[j]).preferred,
    ensures
        first_preferred(modes) is None,
    decreases modes.len(),
{
    if modes.len() > 0 {
        let rest = modes.skip(1);
        assert forall|j: int| 0 <= j < rest.len() implies !(#[trigger] rest[j]).preferred by {
            assert(rest[j] == modes[j + 1]);
        }
        lemma_none_preferred(rest);
    }
}

/// Where nothing that is offered fits, or nothing is wanted, the first preferred
/// mode is set.
pub proof fn law_the_preferred_mode_is_set_else(modes: Seq<Offered>, wanted: Option<Mode>, i: int)
    requires
        wanted matches Some(wanted) ==> forall|j: int|
            0 <= j < modes.len() ==> !fits(#[trigger] modes[j], wanted),
        0 <= i < modes.len(),
        modes[i].preferred,
        forall|j: int| 0 <= j < i ==> !(#[trigger] modes[j]).preferred,
    ensures
        picked(modes, wanted) == Some(i),
{
    if let Some(wanted) = wanted {
        lemma_no_fit(modes, wanted);
    }
    lemma_preferred_at(modes, i);
}

/// Where none is preferred either, the first mode is set.
pub proof fn law_the_first_mode_is_set_else(modes: Seq<Offered>, wanted: Option<Mode>)
    requires
        wanted matches Some(wanted) ==> forall|j: int|
            0 <= j < modes.len() ==> !fits(#[trigger] modes[j], wanted),
        forall|j: int| 0 <= j < modes.len() ==> !(#[trigger] modes[j]).preferred,
        modes.len() > 0,
    ensures
        picked(modes, wanted) == Some(0int),
{
    if let Some(wanted) = wanted {
        lemma_no_fit(modes, wanted);
    }
    lemma_none_preferred(modes);
}

proof fn lemma_free_at(crtcs: Seq<u32>, used: Seq<u32>, i: int)
    requires
        0 <= i < crtcs.len(),
        !used.contains(crtcs[i]),
        forall|j: int| 0 <= j < i ==> used.contains(#[trigger] crtcs[j]),
    ensures
        first_free(crtcs, used) == Some(crtcs[i]),
    decreases i,
{
    if i > 0 {
        let rest = crtcs.skip(1);
        assert forall|j: int| 0 <= j < i - 1 implies used.contains(#[trigger] rest[j]) by {
            assert(rest[j] == crtcs[j + 1]);
        }
        assert(rest[i - 1] == crtcs[i]);
        lemma_free_at(rest, used, i - 1);
        assert(used.contains(crtcs[0]));
    }
}

proof fn lemma_none_free(crtcs: Seq<u32>, used: Seq<u32>)
    ensures
        first_free(crtcs, used) is None <==> forall|j: int|
            0 <= j < crtcs.len() ==> used.contains(#[trigger] crtcs[j]),
    decreases crtcs.len(),
{
    if crtcs.len() > 0 {
        let rest = crtcs.skip(1);
        lemma_none_free(rest, used);
        if first_free(crtcs, used) is None {
            assert forall|j: int| 0 <= j < crtcs.len() implies used.contains(
                #[trigger] crtcs[j],
            ) by {
                if j > 0 {
                    assert(rest[j - 1] == crtcs[j]);
                }
            }
        } else if first_free(rest, used) is Some {
            let j = choose|j: int| 0 <= j < rest.len() && !used.contains(#[trigger] rest[j]);
            assert(!used.contains(crtcs[j + 1]));
        } else {
            assert(!used.contains(crtcs[0]));
        }
    }
}

/// An encoder that can be read and has a free CRTC drives the connector with the
/// first such one, if no encoder before it has any.
pub proof fn law_the_first_free_crtc_is_taken(
    encoders: Seq<Option<Vec<u32>>>,
    used: Seq<u32>,
    e: int,
    c: int,
)
    requires
        0 <= e < encoders.len(),
        encoders[e] is Some,
        0 <= c < encoders[e]->0@.len(),
        !used.contains(encoders[e]->0@[c]),
        forall|j: int| 0 <= j < c ==> used.contains(#[trigger] encoders[e]->0@[j]),
        forall|d: int, j: int|
            0 <= d < e && encoders[d] is Some && 0 <= j < encoders[d]->0@.len() ==> used.contains(
                #[trigger] encoders[d]->0@[j],
            ),
    ensures
        crtc_for(encoders, used) == Some(encoders[e]->0@[c]),
    decreases e,
{
    if e == 0 {
        lemma_free_at(encoders[0]->0@, used, c);
    } else {
        let rest = encoders.skip(1);
        assert(rest[e - 1] == encoders[e]);
        assert forall|j: int| 0 <= j < c implies used.contains(
            #[trigger] rest[e - 1]->0@[j],
        ) by {
            assert(used.contains(encoders[e]->0@[j]));
        }
        assert forall|d: int, j: int|
            0 <= d < e - 1 && rest[d] is Some && 0 <= j < rest[d]->0@.len() implies used.contains(
            #[trigger] rest[d]->0@[j],
        ) by {
            assert(rest[d] == encoders[d + 1]);
            assert(used.contains(encoders[d + 1]->0@[j]));
        }
        law_the_first_free_crtc_is_taken(rest, used, e - 1, c);
        if let Some(crtcs) = encoders[0] {
            lemma_none_free(crtcs@, used);
            assert forall|j: int| 0 <= j < crtcs@.len() implies used.contains(
                #[trigger] crtcs@[j],
            ) by {
                assert(used.contains(encoders[0]->0@[j]));
            }
        }
    }
}

/// Where every CRTC is in use, the connector stays dark.
pub proof fn law_without_a_free_crtc(encoders: Seq<Option<Vec<u32>>>, used: Seq<u32>)
    requires
        forall|d: int, j: int|
            0 <= d < encoders.len() && encoders[d] is Some && 0 <= j < encoders[d]->0@.len()
                ==> used.contains(#[trigger] encoders[d]->0@[j]),
    ensures
        crtc_for(encoders, used) is None,
    decreases encoders.len(),
{
    if encoders.len() > 0 {
        let rest = encoders.skip(1);
        assert forall|d: int, j: int|
            0 <= d < rest.len() && rest[d] is Some && 0 <= j
                < rest[d]->0@.len() implies used.contains(#[trigger] rest[d]->0@[j]) by {
            assert(rest[d] == encoders[d + 1]);
            assert(used.contains(encoders[d + 1]->0@[j]));
        }
        law_without_a_free_crtc(rest, used);
        if let Some(crtcs) = encoders[0] {
            lemma_none_free(crtcs@, used);
            assert forall|j: int| 0 <= j < crtcs@.len() implies used.contains(
                #[trigger] crtcs@[j],
            ) by {
                assert(used.contains(encoders[0]->0@[j]));
            }
        }
    }
}

/// An output is up while something is plugged into its own connector, whatever that
/// is called now.
pub proof fn law_what_is_up(heads: Seq<Head>, plugged: Seq<Plugged>, i: int, k: int)
    requires
        0 <= i < heads.len(),
        0 <= k < plugged.len(),
        heads[i].connector == plugged[k].connector,
    ensures
        is_live(plugged, heads[i].connector),
        is_up(heads, plugged, heads[i].name@),
{
}

/// What is up is up on a connector that something is plugged into.
pub proof fn law_nothing_is_up_on_an_empty_connector(
    heads: Seq<Head>,
    plugged: Seq<Plugged>,
    name: Seq<char>,
)
    ensures
        is_up(heads, plugged, name) ==> exists|i: int, k: int|
            0 <= i < heads.len() && 0 <= k < plugged.len() && (#[trigger] heads[i]).name@ == name
                && heads[i].connector == (#[trigger] plugged[k]).connector,
{
}

/// An output goes down, in the order of the outputs, just when nothing is plugged
/// into its connector any more.
pub proof fn law_an_empty_connector_goes_down(
    first: Seq<Head>,
    others: Seq<Head>,
    head: Head,
    plugged: Seq<Plugged>,
)
    ensures
        dropped(first + others, plugged) == dropped(first, plugged) + dropped(others, plugged),
        (exists|k: int| 0 <= k < plugged.len() && (#[trigger] plugged[k]).connector == head.connector)
            ==> dropped(seq![head], plugged).len() == 0,
        (forall|k: int| 0 <= k < plugged.len() ==> (#[trigger] plugged[k]).connector != head.connector)
            ==> dropped(seq![head], plugged) == seq![head.crtc],
    decreases others.len(),
{
    let one = seq![head];
    assert(one.drop_last() =~= Seq::<Head>::empty());
    assert(dropped(one.drop_last(), plugged) =~= Seq::<u32>::empty());
    if others.len() == 0 {
        assert(first + others =~= first);
    } else {
        law_an_empty_connector_goes_down(first, others.drop_last(), head, plugged);
        assert((first + others).drop_last() =~= first + others.drop_last());
    }
}

/// Connectors are brought up in the order they were found in, each once.
pub proof fn law_connectors_come_up_in_order(
    heads: Seq<Head>,
    plugged: Seq<Plugged>,
    config: Config,
    n: int,
    i: int,
    j: int,
)
    requires
        n <= plugged.len() <= usize::MAX,
        0 <= i < j < wanted_up(heads, plugged, config, n).len(),
    ensures
        wanted_up(heads, plugged, config, n)[i] < wanted_up(heads, plugged, config, n)[j],
    decreases n,
{
    let before = wanted_up(heads, plugged, config, n - 1);
    lemma_wanted_are_smaller(heads, plugged, config, n - 1);
    if j < before.len() {
        law_connectors_come_up_in_order(heads, plugged, config, n - 1, i, j);
    } else {
        assert(before[i] < n - 1);
    }
}

/// What each request does. Switching is left to the seat. A session that comes to
/// the front has its input back, and its device too where there is one, which is
/// drawn afresh; one that goes has neither. Only the removal of the device that is
/// open closes it, and only where none is open is one opened.
pub proof fn law_what_a_request_does(seat: Seat, request: Request)
    ensures
        ({
            let (next, steps) = on_request(seat, request);
            &&& request matches Request::SwitchVt(vt) ==> next == seat && steps
                == seq![SeatStepView::ChangeVt(vt)]
            &&& request matches Request::SessionActive(active) ==> {
                &&& next.active == active
                &&& next.device == seat.device
                &&& next.rescan == seat.rescan
                &&& active ==> steps[0] is ResumeInput && steps.last() is ConfigureLayers
                &&& active && seat.device is Some ==> steps.len() == 4 && steps[1] is ActivateDevice
                    && steps[2] is ResetBuffers
                &&& active && seat.device is None ==> steps.len() == 2
                &&& !active ==> steps[0] is SuspendInput
                &&& !active && seat.device is Some ==> steps.len() == 2 && steps[1] is PauseDevice
                &&& !active && seat.device is None ==> steps.len() == 1
            }
            &&& request is RescanConnectors ==> {
                &&& next.rescan
                &&& next.active == seat.active
                &&& next.device == seat.device
                &&& steps.len() == 0
            }
            &&& request matches Request::DeviceAdded(path) ==> {
                &&& next == seat
                &&& seat.device is None ==> steps == seq![SeatStepView::OpenDevice(path@)]
                &&& seat.device is Some ==> steps.len() == 0
            }
            &&& request matches Request::DeviceRemoved(id) ==> {
                &&& next.active == seat.active
                &&& next.rescan == seat.rescan
                &&& seat.device == Some(id) ==> next.device is None && steps.len() == 2
                    && steps[0] is CloseDevice && steps[1] is ClearOutputs
                &&& seat.device != Some(id) ==> next == seat && steps.len() == 0
            }
            &&& request matches Request::VBlank(crtc) ==> {
                &&& next == seat
                &&& seat.device is Some ==> steps == seq![SeatStepView::FrameSubmitted(crtc)]
                &&& seat.device is None ==> steps.len() == 0
            }
        }),
{
}

/// Steps are seen as they are.
pub proof fn law_steps_are_seen_as_they_are(steps: Seq<SeatStep>, i: int)
    requires
        0 <= i < steps.len(),
    ensures
        seat_steps(steps).len() == steps.len(),
        steps[i] matches SeatStep::ChangeVt(vt) ==> seat_steps(steps)[i]
            == SeatStepView::ChangeVt(vt),
        steps[i] matches SeatStep::OpenDevice(path) ==> seat_steps(steps)[i]
            == SeatStepView::OpenDevice(path@),
        steps[i] matches SeatStep::FrameSubmitted(crtc) ==> seat_steps(steps)[i]
            == SeatStepView::FrameSubmitted(crtc),
        steps[i] is ResumeInput <==> seat_steps(steps)[i] is ResumeInput,
        steps[i] is SuspendInput <==> seat_steps(steps)[i] is SuspendInput,
        steps[i] is ActivateDevice <==> seat_steps(steps)[i] is ActivateDevice,
        steps[i] is PauseDevice <==> seat_steps(steps)[i] is PauseDevice,
        steps[i] is ResetBuffers <==> seat_steps(steps)[i] is ResetBuffers,
        steps[i] is ConfigureLayers <==> seat_steps(steps)[i] is ConfigureLayers,
        steps[i] is CloseDevice <==> seat_steps(steps)[i] is CloseDevice,
        steps[i] is ClearOutputs <==> seat_steps(steps)[i] is ClearOutputs,
        steps[i] is ScanConnectors <==> seat_steps(steps)[i] is ScanConnectors,
{
}

/// The GPU that is opened is the first there is of the primary one, any other, and
/// the one that was there at the start; there is none only where there is none of
/// them.
pub proof fn law_which_gpu_is_opened(
    primary: Option<String>,
    all: Option<String>,
    initial: Option<String>,
    opened: Option<String>,
)
    requires
        call_ensures(choose_gpu, (primary, all, initial), opened),
    ensures
        primary is Some ==> opened == primary,
        primary is None && all is Some ==> opened == all,
        opened is None <==> primary is None && all is None && initial is None,
        primary is None && all is None ==> opened == initial,
{
}

/// A seat is tried for until its deadline; a monitor is asked only where nothing is
/// known of it; and frames are asked for if and only if one was drawn.
pub proof fn law_when_to_try_ask_and_draw(
    now: u64,
    deadline: u64,
    again: bool,
    plug: Plug,
    probed: bool,
    frames: Vec<Frame>,
    sent: bool,
)
    requires
        call_ensures(retry_seat, (now, deadline), again),
        call_ensures(needs_probe, (plug,), probed),
        call_ensures(should_send_frames, (&frames,), sent),
    ensures
        again <==> now < deadline,
        probed <==> plug != Plug::Connected && plug != Plug::Disconnected,
        sent <==> exists|i: int| 0 <= i < frames@.len() && #[trigger] frames@[i] == Frame::Drawn,
{
}

/// A connector is named by its kind and its number.
pub proof fn law_how_connectors_are_named(kind: &str, id: u32, name: String)
    requires
        call_ensures(connector_name, (kind, id), name),
    ensures
        name@ == kind@ + "-"@ + decimal(id as nat),
{
}

} // verus!
