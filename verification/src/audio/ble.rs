//! The link to a wearable: which peripherals to take up, the steps that lead
//! from a sighting to a running audio stream, and the control channel that
//! raises and lowers the recording flag.
//!
//! Nothing here touches a radio. The caller scans, connects, subscribes and
//! writes; after each of these it reports what happened and is told what to
//! do next.

use crate::text::text_eq;
use crate::uuids::{parse_uuid, parsed_uuid};
use vstd::prelude::*;

verus! {

/// Text form of the characteristic on which the device reports button events.
pub const CONTROL_TX_UUID: &'static str = "1234A003-1234-5678-1234-56789ABCDEF0";

/// Text form of the characteristic that takes commands for the device.
pub const CONTROL_RX_UUID: &'static str = "1234A002-1234-5678-1234-56789ABCDEF0";

/// Device event: the button was pressed, recording begins.
pub const RESP_SPEECH_START: u8 = 0x01;

/// Device event: the button was pressed again, recording ends.
pub const RESP_SPEECH_END: u8 = 0x02;

/// Command: stream audio.
pub const CMD_START_RECORDING: u8 = 10;

/// Command: stop streaming.
pub const CMD_END_RECORDING: u8 = 12;

/// Seconds between two scans for peripherals.
pub const SCAN_INTERVAL_SECS: u64 = 2;

/// What a control value did.
#[derive(Debug, Clone, Copy, PartialEq, Eq, Structural)]
pub enum ControlEffect {
    /// The value repeats the one acted upon last and is passed over.
    Suppressed,
    /// The value was acted upon; the recording flag is now `is_recording`.
    Acted { is_recording: bool },
}

/// The recording flag after a control value was acted upon.
pub open spec fn flag_after(value: u8, is_recording: bool) -> bool {
    if value == RESP_SPEECH_START {
        true
    } else if value == RESP_SPEECH_END {
        false
    } else {
        is_recording
    }
}

/// Whether a control value repeats the value acted upon last.
pub open spec fn is_repeat(last: Option<u8>, value: u8) -> bool {
    last == Some(value)
}

/// The effect of a control value, given the value acted upon last.
pub open spec fn control_effect(last: Option<u8>, value: u8, is_recording: bool) -> ControlEffect {
    if is_repeat(last, value) {
        ControlEffect::Suppressed
    } else {
        ControlEffect::Acted { is_recording: flag_after(value, is_recording) }
    }
}

/// Follows the control channel of one device and suppresses repetitions.
#[derive(Debug)]
pub struct ControlTracker {
    last: Option<u8>,
}

impl ControlTracker {
    /// The control value acted upon last, if any.
    pub closed spec fn last_acted(&self) -> Option<u8> {
        self.last
    }

    /// A tracker that has acted upon nothing yet.
    pub fn new() -> (tracker: Self)
        ensures
            tracker.last_acted() is None,
    {
        ControlTracker { last: None }
    }

    /// Takes one control value while the recording flag is `is_recording`.
    ///
    /// A value equal to the one acted upon last is suppressed. Any other
    /// value is acted upon and remembered: speech start raises the flag,
    /// speech end lowers it, every other value leaves it as it is.
    pub fn on_value(&mut self, value: u8, is_recording: bool) -> (effect: ControlEffect)
        ensures
            effect == control_effect(old(self).last_acted(), value, is_recording),
            effect is Suppressed ==> final(self).last_acted() == old(self).last_acted(),
            effect is Acted ==> final(self).last_acted() == Some(value),
    {
        match self.last {
            Some(previous) => {
                if previous == value {
                    return ControlEffect::Suppressed;
                }
            },
            None => {},
        }
        self.last = Some(value);
        let is_recording = if value == RESP_SPEECH_START {
            true
        } else if value == RESP_SPEECH_END {
            false
        } else {
            is_recording
        };
        ControlEffect::Acted { is_recording }
    }
}

/// The control values acted upon over a trace of received values, in order,
/// when `last` was the value acted upon before: those that
/// [`control_effect`] does not suppress, each remembered for the next.
pub open spec fn acted_values(last: Option<u8>, values: Seq<u8>) -> Seq<u8>
    decreases values.len(),
{
    if values.len() == 0 {
        Seq::empty()
    } else if is_repeat(last, values[0]) {
        acted_values(last, values.skip(1))
    } else {
        seq![values[0]] + acted_values(Some(values[0]), values.skip(1))
    }
}

/// Debounce law. Of the control values acted upon, the first differs from the
/// value acted upon before the trace, and each later one differs from the
/// one acted upon just before it.
pub proof fn lemma_acted_values_differ(last: Option<u8>, values: Seq<u8>)
    ensures
        acted_values(last, values).len() > 0 ==> last != Some(acted_values(last, values)[0]),
        forall|i: int|
            0 < i < acted_values(last, values).len() ==> acted_values(last, values)[i - 1]
                != #[trigger] acted_values(last, values)[i],
    decreases values.len(),
{
    if values.len() == 0 {
    } else if last == Some(values[0]) {
        lemma_acted_values_differ(last, values.skip(1));
    } else {
        let rest = acted_values(Some(values[0]), values.skip(1));
        lemma_acted_values_differ(Some(values[0]), values.skip(1));
        let all = acted_values(last, values);
        assert(all =~= seq![values[0]] + rest);
        assert forall|i: int| 0 < i < all.len() implies all[i - 1] != #[trigger] all[i] by {
            if i == 1 {
                assert(all[0] == values[0]);
                assert(all[1] == rest[0]);
            } else {
                assert(all[i] == rest[i - 1]);
                assert(all[i - 1] == rest[i - 2]);
            }
        }
    }
}

/// The control value that a notification carries: its first byte, if it came
/// from the control characteristic and is not empty.
pub fn control_value(source: u128, control_characteristic: u128, value: &[u8]) -> (byte: Option<u8>)
    ensures
        byte == if source == control_characteristic && value@.len() > 0 {
            Some(value@[0])
        } else {
            None::<u8>
        },
{
    if source == control_characteristic && value.len() > 0 {
        Some(value[0])
    } else {
        None
    }
}

/// The bundle that a notification carries: its bytes as they are, if it came
/// from the audio characteristic.
pub fn audio_bundle(source: u128, audio_characteristic: u128, value: Vec<u8>) -> (bundle: Option<
    Vec<u8>,
>)
    ensures
        bundle == if source == audio_characteristic {
            Some(value)
        } else {
            None::<Vec<u8>>
        },
{
    if source == audio_characteristic {
        Some(value)
    } else {
        None
    }
}

/// Whether `wanted` is among `uuids`.
pub fn has_uuid(uuids: &Vec<u128>, wanted: u128) -> (found: bool)
    ensures
        found == uuids@.contains(wanted),
{
    let mut i: usize = 0;
    while i < uuids.len()
        invariant
            i <= uuids@.len(),
            forall|j: int| 0 <= j < i ==> uuids@[j] != wanted,
        decreases uuids@.len() - i,
    {
        if uuids[i] == wanted {
            return true;
        }
        i += 1;
    }
    false
}

/// Which of the characteristics of interest a device offers.
#[derive(Debug, Clone, Copy, PartialEq, Eq, Structural)]
pub struct Characteristics {
    pub audio: bool,
    pub control_tx: bool,
    pub control_rx: bool,
}

/// Why a device was given up for this scan.
#[derive(Debug, Clone, Copy, PartialEq, Eq, Structural)]
pub enum LinkError {
    /// The peripheral reported no properties.
    NoProperties,
    /// Whether a connection exists could not be found out.
    LinkQueryFailed,
    /// Connecting failed.
    ConnectFailed,
    /// Service discovery failed.
    DiscoveryFailed,
    /// The device does not offer the audio characteristic.
    AudioCharacteristicNotFound,
    /// Subscribing to the audio characteristic failed.
    AudioSubscribeFailed,
    /// Subscribing to the control characteristic failed.
    ControlSubscribeFailed,
    /// The text of the control TX UUID is no UUID.
    BadControlTxUuid,
    /// The text of the control RX UUID is no UUID.
    BadControlRxUuid,
}

/// The two control characteristics as numbers.
#[derive(Debug, Clone, Copy, PartialEq, Eq, Structural)]
pub struct ControlUuids {
    pub tx: u128,
    pub rx: u128,
}

/// What two readings of UUID texts amount to, `None` standing for a text
/// that is no UUID: the first failure is named, TX first.
pub open spec fn spec_control_uuids(tx: Option<u128>, rx: Option<u128>) -> Result<
    ControlUuids,
    LinkError,
> {
    match tx {
        None => Err(LinkError::BadControlTxUuid),
        Some(tx) => match rx {
            None => Err(LinkError::BadControlRxUuid),
            Some(rx) => Ok(ControlUuids { tx, rx }),
        },
    }
}

/// Puts the readings of the two control UUIDs together.
pub fn control_uuids_from(tx: Option<u128>, rx: Option<u128>) -> (uuids: Result<
    ControlUuids,
    LinkError,
>)
    ensures
        uuids == spec_control_uuids(tx, rx),
{
    match tx {
        None => Err(LinkError::BadControlTxUuid),
        Some(tx) => match rx {
            None => Err(LinkError::BadControlRxUuid),
            Some(rx) => Ok(ControlUuids { tx, rx }),
        },
    }
}

/// Reads two control UUIDs from their text form, TX first.
pub fn parse_control_uuids(tx_text: &str, rx_text: &str) -> (uuids: Result<ControlUuids, LinkError>)
    ensures
        uuids == spec_control_uuids(parsed_uuid(tx_text@), parsed_uuid(rx_text@)),
{
    let tx = parse_uuid(tx_text);
    let rx = parse_uuid(rx_text);
    control_uuids_from(tx, rx)
}

/// The control UUIDs of the device: [`CONTROL_TX_UUID`] and
/// [`CONTROL_RX_UUID`], read from their text form.
pub fn control_uuids() -> (uuids: Result<ControlUuids, LinkError>)
    ensures
        uuids == spec_control_uuids(parsed_uuid(CONTROL_TX_UUID@), parsed_uuid(CONTROL_RX_UUID@)),
{
    parse_control_uuids(CONTROL_TX_UUID, CONTROL_RX_UUID)
}

/// Looks for the audio characteristic and the two control characteristics
/// among those that a device offers.
pub fn locate_characteristics(offered: &Vec<u128>, audio: u128, control: ControlUuids) -> (found:
    Characteristics)
    ensures
        found == (Characteristics {
            audio: offered@.contains(audio),
            control_tx: offered@.contains(control.tx),
            control_rx: offered@.contains(control.rx),
        }),
{
    Characteristics {
        audio: has_uuid(offered, audio),
        control_tx: has_uuid(offered, control.tx),
        control_rx: has_uuid(offered, control.rx),
    }
}

/// Where the link to one device stands.
///
/// A sighting leads through `Connecting` and `ServiceDiscovery` to the two
/// subscriptions; `Subscribed` waits for the start command to be written,
/// and `Streaming` is the state of a device that is set up. `Connecting`
/// covers the question whether a connection exists and, if none does, the
/// connecting itself.
#[derive(Debug, Clone, Copy, PartialEq, Eq, Structural)]
pub enum LinkState {
    Disconnected,
    Connecting,
    ServiceDiscovery,
    /// Waiting for the audio subscription; the flags say which control
    /// characteristics the device offers.
    SubscribingAudio { control_tx: bool, control_rx: bool },
    /// Waiting for the control subscription.
    SubscribingControl { control_rx: bool },
    Subscribed,
    Streaming,
}

/// What the caller reports.
#[derive(Debug, Clone, Copy, PartialEq, Eq, Structural)]
pub enum LinkEvent {
    /// A scan saw the peripheral. `advertises_service` says whether it
    /// advertises the wanted service, `known` whether its name is in the set
    /// of devices already set up.
    Sighted { advertises_service: bool, known: bool },
    /// A scan saw the peripheral, but it reported no properties.
    SightedWithoutProperties,
    /// The question whether a connection exists was answered with `link_up`,
    /// or could not be answered.
    LinkQueried { ok: bool, link_up: bool },
    /// Connecting ended.
    ConnectFinished { ok: bool },
    /// Service discovery ended; on success `found` tells what the device offers.
    DiscoveryFinished { ok: bool, found: Characteristics },
    /// Subscribing to the audio characteristic ended.
    AudioSubscribeFinished { ok: bool },
    /// Subscribing to the control characteristic ended.
    ControlSubscribeFinished { ok: bool },
    /// Writing the start command ended.
    StartCommandFinished { ok: bool },
    /// The notification stream of the device ended.
    StreamEnded,
}

/// What the caller is to do next.
#[derive(Debug, Clone, Copy, PartialEq, Eq, Structural)]
pub enum LinkAction {
    /// Nothing: the device is passed over, or the report does not fit the state.
    Nothing,
    /// Find out whether a connection to the device exists already.
    QueryLink,
    Connect,
    DiscoverServices,
    SubscribeAudio,
    SubscribeControl,
    /// Write `CMD_START_RECORDING` to the control RX characteristic, without response.
    SendStartRecording,
    /// Enter the device into the set of devices that are set up; raise the
    /// recording flag first if `raise_flag` is set.
    MarkConnected { raise_flag: bool },
    /// Take the device out of the set of devices that are set up, so that the
    /// next scan takes it up again.
    Forget,
    /// Leave the device for this scan.
    Abandon(LinkError),
}

/// The step that follows a successful audio subscription, and every later
/// point at which a subscription is in place.
pub open spec fn after_subscriptions(control_rx: bool) -> (LinkState, LinkAction) {
    if control_rx {
        (LinkState::Subscribed, LinkAction::SendStartRecording)
    } else {
        (LinkState::Streaming, LinkAction::MarkConnected { raise_flag: false })
    }
}

/// The transition relation of the link: next state and action for every
/// state and report.
pub open spec fn link_transition(state: LinkState, event: LinkEvent) -> (LinkState, LinkAction) {
    match (state, event) {
        (LinkState::Disconnected, LinkEvent::SightedWithoutProperties) => (
            LinkState::Disconnected,
            LinkAction::Abandon(LinkError::NoProperties),
        ),
        (LinkState::Disconnected, LinkEvent::Sighted { advertises_service, known }) => {
            if !advertises_service || known {
                (LinkState::Disconnected, LinkAction::Nothing)
            } else {
                (LinkState::Connecting, LinkAction::QueryLink)
            }
        },
        (LinkState::Connecting, LinkEvent::LinkQueried { ok, link_up }) => {
            if !ok {
                (LinkState::Disconnected, LinkAction::Abandon(LinkError::LinkQueryFailed))
            } else if link_up {
                (LinkState::ServiceDiscovery, LinkAction::DiscoverServices)
            } else {
                (LinkState::Connecting, LinkAction::Connect)
            }
        },
        (LinkState::Connecting, LinkEvent::ConnectFinished { ok }) => {
            if ok {
                (LinkState::ServiceDiscovery, LinkAction::DiscoverServices)
            } else {
                (LinkState::Disconnected, LinkAction::Abandon(LinkError::ConnectFailed))
            }
        },
        (LinkState::ServiceDiscovery, LinkEvent::DiscoveryFinished { ok, found }) => {
            if !ok {
                (LinkState::Disconnected, LinkAction::Abandon(LinkError::DiscoveryFailed))
            } else if !found.audio {
                (
                    LinkState::Disconnected,
                    LinkAction::Abandon(LinkError::AudioCharacteristicNotFound),
                )
            } else {
                (
                    LinkState::SubscribingAudio {
                        control_tx: found.control_tx,
                        control_rx: found.control_rx,
                    },
                    LinkAction::SubscribeAudio,
                )
            }
        },
        (
            LinkState::SubscribingAudio { control_tx, control_rx },
            LinkEvent::AudioSubscribeFinished { ok },
        ) => {
            if !ok {
                (LinkState::Disconnected, LinkAction::Abandon(LinkError::AudioSubscribeFailed))
            } else if control_tx {
                (LinkState::SubscribingControl { control_rx }, LinkAction::SubscribeControl)
            } else {
                after_subscriptions(control_rx)
            }
        },
        (LinkState::SubscribingControl { control_rx }, LinkEvent::ControlSubscribeFinished { ok }) => {
            if !ok {
                (LinkState::Disconnected, LinkAction::Abandon(LinkError::ControlSubscribeFailed))
            } else {
                after_subscriptions(control_rx)
            }
        },
        (LinkState::Subscribed, LinkEvent::StartCommandFinished { ok }) => (
            LinkState::Streaming,
            LinkAction::MarkConnected { raise_flag: ok },
        ),
        (LinkState::Streaming, LinkEvent::StreamEnded) => (
            LinkState::Disconnected,
            LinkAction::Forget,
        ),
        _ => (state, LinkAction::Nothing),
    }
}

fn subscriptions_done(control_rx: bool) -> (next: (LinkState, LinkAction))
    ensures
        next == after_subscriptions(control_rx),
{
    if control_rx {
        (LinkState::Subscribed, LinkAction::SendStartRecording)
    } else {
        (LinkState::Streaming, LinkAction::MarkConnected { raise_flag: false })
    }
}

/// Advances the link to one device by one report.
///
/// A peripheral is taken up only if it advertises the wanted service and is
/// not yet set up. Any failure on the way abandons the device until the next
/// scan. A failed start command is not a failure of the link: the device is
/// set up all the same, only the recording flag is left alone.
pub fn link_step(state: LinkState, event: LinkEvent) -> (next: (LinkState, LinkAction))
    ensures
        next == link_transition(state, event),
{
    match (state, event) {
        (LinkState::Disconnected, LinkEvent::SightedWithoutProperties) => (
            LinkState::Disconnected,
            LinkAction::Abandon(LinkError::NoProperties),
        ),
        (LinkState::Disconnected, LinkEvent::Sighted { advertises_service, known }) => {
            if !advertises_service || known {
                (LinkState::Disconnected, LinkAction::Nothing)
            } else {
                (LinkState::Connecting, LinkAction::QueryLink)
            }
        },
        (LinkState::Connecting, LinkEvent::LinkQueried { ok, link_up }) => {
            if !ok {
                (LinkState::Disconnected, LinkAction::Abandon(LinkError::LinkQueryFailed))
            } else if link_up {
                (LinkState::ServiceDiscovery, LinkAction::DiscoverServices)
            } else {
                (LinkState::Connecting, LinkAction::Connect)
            }
        },
        (LinkState::Connecting, LinkEvent::ConnectFinished { ok }) => {
            if ok {
                (LinkState::ServiceDiscovery, LinkAction::DiscoverServices)
            } else {
                (LinkState::Disconnected, LinkAction::Abandon(LinkError::ConnectFailed))
            }
        },
        (LinkState::ServiceDiscovery, LinkEvent::DiscoveryFinished { ok, found }) => {
            if !ok {
                (LinkState::Disconnected, LinkAction::Abandon(LinkError::DiscoveryFailed))
            } else if !found.audio {
                (
                    LinkState::Disconnected,
                    LinkAction::Abandon(LinkError::AudioCharacteristicNotFound),
                )
            } else {
                (
                    LinkState::SubscribingAudio {
                        control_tx: found.control_tx,
                        control_rx: found.control_rx,
                    },
                    LinkAction::SubscribeAudio,
                )
            }
        },
        (
            LinkState::SubscribingAudio { control_tx, control_rx },
            LinkEvent::AudioSubscribeFinished { ok },
        ) => {
            if !ok {
                (LinkState::Disconnected, LinkAction::Abandon(LinkError::AudioSubscribeFailed))
            } else if control_tx {
                (LinkState::SubscribingControl { control_rx }, LinkAction::SubscribeControl)
            } else {
                subscriptions_done(control_rx)
            }
        },
        (LinkState::SubscribingControl { control_rx }, LinkEvent::ControlSubscribeFinished { ok }) => {
            if !ok {
                (LinkState::Disconnected, LinkAction::Abandon(LinkError::ControlSubscribeFailed))
            } else {
                subscriptions_done(control_rx)
            }
        },
        (LinkState::Subscribed, LinkEvent::StartCommandFinished { ok }) => (
            LinkState::Streaming,
            LinkAction::MarkConnected { raise_flag: ok },
        ),
        (LinkState::Streaming, LinkEvent::StreamEnded) => (
            LinkState::Disconnected,
            LinkAction::Forget,
        ),
        _ => (state, LinkAction::Nothing),
    }
}

/// The state of the link after a trace of reports.
pub open spec fn link_run(state: LinkState, events: Seq<LinkEvent>) -> LinkState
    decreases events.len(),
{
    if events.len() == 0 {
        state
    } else {
        link_transition(link_run(state, events.drop_last()), events.last()).0
    }
}

/// Whether the state is one that lies behind a successful audio
/// subscription.
pub open spec fn audio_in_place(state: LinkState) -> bool {
    state is SubscribingControl || state is Subscribed || state is Streaming
}

/// Whether a trace reports a successful audio subscription.
pub open spec fn reports_audio_subscription(events: Seq<LinkEvent>) -> bool {
    exists|i: int|
        0 <= i < events.len() && #[trigger] events[i] == (LinkEvent::AudioSubscribeFinished {
            ok: true,
        })
}

/// A device is entered into the set of devices that are set up exactly on
/// the step that takes its link to `Streaming`.
pub proof fn lemma_marked_on_entering_streaming(state: LinkState, event: LinkEvent)
    ensures
        link_transition(state, event).1 is MarkConnected <==> (link_transition(state, event).0
            is Streaming && !(state is Streaming)),
{
}

/// A sighting of a device that is set up already, or that does not
/// advertise the service, changes nothing: taking a device up is idempotent.
pub proof fn lemma_known_device_is_passed_over(advertises_service: bool, known: bool)
    requires
        known || !advertises_service,
    ensures
        link_transition(
            LinkState::Disconnected,
            LinkEvent::Sighted { advertises_service, known },
        ) == (LinkState::Disconnected, LinkAction::Nothing),
{
}

/// No link streams without its audio subscription: whatever is reported,
/// and in whatever order, a link that started disconnected is in
/// `Streaming` (or waits for a control subscription or a start command)
/// only if a successful audio subscription was reported.
pub proof fn lemma_streaming_needs_audio_subscription(events: Seq<LinkEvent>)
    ensures
        audio_in_place(link_run(LinkState::Disconnected, events)) ==> reports_audio_subscription(
            events,
        ),
    decreases events.len(),
{
    if events.len() > 0 {
        let earlier = events.drop_last();
        lemma_streaming_needs_audio_subscription(earlier);
        let before = link_run(LinkState::Disconnected, earlier);
        if audio_in_place(link_run(LinkState::Disconnected, events)) {
            if audio_in_place(before) {
                let i = choose|i: int|
                    0 <= i < earlier.len() && #[trigger] earlier[i] == (
                    LinkEvent::AudioSubscribeFinished { ok: true });
                assert(events[i] == earlier[i]);
            } else {
                assert(events[events.len() - 1] == (LinkEvent::AudioSubscribeFinished { ok: true }));
            }
        }
    }
}

/// The names of the devices that are set up.
#[derive(Debug)]
pub struct ConnectedDevices {
    names: Vec<String>,
}

impl View for ConnectedDevices {
    type V = Set<Seq<char>>;

    closed spec fn view(&self) -> Set<Seq<char>> {
        Set::new(|name: Seq<char>| exists|i: int| 0 <= i < self.names@.len() && self.names@[i]@ == name)
    }
}

impl ConnectedDevices {
    /// The empty set.
    pub fn new() -> (devices: Self)
        ensures
            devices@ == Set::<Seq<char>>::empty(),
    {
        let devices = ConnectedDevices { names: Vec::new() };
        assert(devices@ =~= Set::<Seq<char>>::empty());
        devices
    }

    fn position(&self, name: &str) -> (at: Option<usize>)
        ensures
            match at {
                Some(i) => i < self.names@.len() && self.names@[i as int]@ == name@,
                None => forall|j: int| 0 <= j < self.names@.len() ==> self.names@[j]@ != name@,
            },
    {
        let mut i: usize = 0;
        while i < self.names.len()
            invariant
                i <= self.names@.len(),
                forall|j: int| 0 <= j < i ==> self.names@[j]@ != name@,
            decreases self.names@.len() - i,
        {
            if text_eq(self.names[i].as_str(), name) {
                return Some(i);
            }
            i += 1;
        }
        None
    }

    /// Whether the device called `name` is set up.
    pub fn contains(&self, name: &str) -> (known: bool)
        ensures
            known == self@.contains(name@),
    {
        self.position(name).is_some()
    }

    /// Enters `name`. Entering a name twice changes nothing.
    pub fn insert(&mut self, name: String)
        ensures
            final(self)@ == old(self)@.insert(name@),
    {
        if self.position(name.as_str()).is_none() {
            let ghost before = self.names@;
            self.names.push(name);
            assert forall|n: Seq<char>| final(self)@.contains(n) == old(self)@.insert(
                name@,
            ).contains(n) by {
                if old(self)@.contains(n) {
                    let i = choose|i: int| 0 <= i < before.len() && before[i]@ == n;
                    assert(self.names@[i]@ == n);
                }
                if n == name@ {
                    assert(self.names@[before.len() as int]@ == n);
                }
            }
            assert(final(self)@ =~= old(self)@.insert(name@));
        } else {
            assert(final(self)@ =~= old(self)@.insert(name@));
        }
    }

    /// Takes `name` out, if it is there.
    pub fn remove(&mut self, name: &str)
        ensures
            final(self)@ == old(self)@.remove(name@),
    {
        let mut kept: Vec<String> = Vec::new();
        let mut i: usize = 0;
        while i < self.names.len()
            invariant
                i <= self.names@.len(),
                self.names@ == old(self).names@,
                forall|j: int| 0 <= j < kept@.len() ==> (#[trigger] kept@[j])@ != name@,
                forall|j: int|
                    0 <= j < kept@.len() ==> exists|k: int|
                        0 <= k < i && self.names@[k]@ == (#[trigger] kept@[j])@,
                forall|k: int|
                    0 <= k < i && self.names@[k]@ != name@ ==> exists|j: int|
                        0 <= j < kept@.len() && kept@[j]@ == (#[trigger] self.names@[k])@,
            decreases self.names@.len() - i,
        {
            if !text_eq(self.names[i].as_str(), name) {
                let ghost before = kept@;
                let entry = self.names[i].clone();
                kept.push(entry);
                assert forall|k: int| 0 <= k < i + 1 && self.names@[k]@ != name@ implies exists|
                    j: int,
                |
                    0 <= j < kept@.len() && kept@[j]@ == (#[trigger] self.names@[k])@ by {
                    if k < i {
                        let j = choose|j: int|
                            0 <= j < before.len() && before[j]@ == self.names@[k]@;
                        assert(kept@[j]@ == self.names@[k]@);
                    } else {
                        assert(kept@[before.len() as int]@ == self.names@[k]@);
                    }
                }
                assert forall|j: int| 0 <= j < kept@.len() implies exists|k: int|
                    0 <= k < i + 1 && self.names@[k]@ == (#[trigger] kept@[j])@ by {
                    if j < before.len() {
                        let k = choose|k: int| 0 <= k < i && self.names@[k]@ == before[j]@;
                        assert(self.names@[k]@ == kept@[j]@);
                    } else {
                        assert(self.names@[i as int]@ == kept@[j]@);
                    }
                }
            }
            i += 1;
        }
        self.names = kept;
        assert forall|n: Seq<char>| final(self)@.contains(n) == old(self)@.remove(name@).contains(
            n,
        ) by {
            if final(self)@.contains(n) {
                let j = choose|j: int| 0 <= j < self.names@.len() && self.names@[j]@ == n;
                let k = choose|k: int|
                    0 <= k < old(self).names@.len() && old(self).names@[k]@ == self.names@[j]@;
                assert(old(self).names@[k]@ == n);
            }
            if old(self)@.remove(name@).contains(n) {
                let k = choose|k: int| 0 <= k < old(self).names@.len() && old(self).names@[k]@ == n;
                let j = choose|j: int|
                    0 <= j < self.names@.len() && self.names@[j]@ == old(self).names@[k]@;
                assert(self.names@[j]@ == n);
            }
        }
        assert(final(self)@ =~= old(self)@.remove(name@));
    }
}

/// Whether a peripheral advertises the wanted service.
pub fn advertises_service(services: &Vec<u128>, wanted: u128) -> (advertised: bool)
    ensures
        advertised == services@.contains(wanted),
{
    has_uuid(services, wanted)
}

} // verus!
