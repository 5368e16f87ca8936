//! Bringing a VirtIO device up: status bits and feature negotiation.
//!
//! The driver writes and reads registers in turn and decides by what it reads.
//! Each decision is a step from a phase and an event to the next phase and the
//! next access.

use vstd::prelude::*;

verus! {

/// The PCI vendor id of VirtIO devices.
pub const VIRTIO_PCI_VENDOR_ID: u16 = 0x1AF4;

/// Status bit: the device was noticed.
pub const ACKNOWLEDGE: u8 = 1;

/// Status bit: there is a driver for it.
pub const DRIVER: u8 = 2;

/// Status bit: the driver is ready.
pub const DRIVER_OK: u8 = 4;

/// Status bit: the features are agreed upon.
pub const FEATURES_OK: u8 = 8;

/// Status bit: something went wrong.
pub const FAILED: u8 = 128;

/// Feature bit 32: the device complies with version 1.
pub const VIRTIO_F_VERSION_1: u64 = 0x1_0000_0000;

/// Feature bit 29: notifications go by event index.
pub const VIRTIO_F_EVENT_IDX: u64 = 0x2000_0000;

/// Kinds of devices that there is a driver for.
#[derive(Copy, Clone, Debug, PartialEq, Eq, Structural)]
pub enum DeviceType {
    GPU,
}

impl DeviceType {
    /// The PCI device id of the kind.
    pub fn id(&self) -> (r: u16)
        ensures
            r == 0x1050,
    {
        0x1050
    }

    /// The name of the kind.
    pub fn name(&self) -> (r: &'static str)
        ensures
            r@ == "Virtio GPU"@,
    {
        "Virtio GPU"
    }
}

/// The feature is among the features.
pub open spec fn has_feature(features: u64, feature: u64) -> bool {
    features & feature == feature
}

/// The features in two halves, as registers hold them.
pub fn device_features(low: u32, high: u32) -> (r: u64)
    ensures
        r == low + 0x1_0000_0000 * high,
{
    low as u64 + 0x1_0000_0000 * high as u64
}

/// The two halves in which features are written.
pub fn feature_halves(features: u64) -> (r: (u32, u32))
    ensures
        r.0 == features % 0x1_0000_0000,
        r.1 == features / 0x1_0000_0000,
{
    ((features % 0x1_0000_0000) as u32, (features / 0x1_0000_0000) as u32)
}

/// Whether a feature is among the features.
pub fn contains_feature(features: u64, feature: u64) -> (r: bool)
    ensures
        r == has_feature(features, feature),
{
    features & feature == feature
}

/// Where the driver is in bringing the device up.
#[derive(Copy, Clone, Debug, PartialEq, Eq, Structural)]
pub enum InitPhase {
    /// Nothing was done.
    Start,
    /// The status was cleared.
    Reset,
    /// The device was acknowledged.
    Acknowledged,
    /// The features were asked for.
    FeaturesRead,
    /// The features were written.
    FeaturesWritten,
    /// The status says that the features are agreed upon.
    FeaturesAnnounced,
    /// The status was asked for, to see whether the device agrees.
    FeaturesChecked,
    /// The device did not agree and was told so.
    Refused,
    /// Nothing more is to be done.
    Finished,
}

/// What came of the last access.
#[derive(Copy, Clone, Debug, PartialEq, Eq, Structural)]
pub enum InitEvent {
    /// It was a write.
    Written,
    /// It read the features.
    Features(u64),
    /// It read the status.
    Status(u8),
}

/// The next access.
#[derive(Copy, Clone, Debug, PartialEq, Eq, Structural)]
pub enum InitAccess {
    /// Write the status.
    WriteStatus(u8),
    /// Read the features of the device.
    ReadFeatures,
    /// Write the features of the driver.
    WriteFeatures(u64),
    /// Read the status.
    ReadStatus,
    /// The device is up to the point where queues are set up, with these features.
    Done(u64),
    /// The device does not comply with version 1.
    Unsupported,
    /// The device refused the features.
    NotNegotiated,
    /// The event does not go with the phase.
    Unexpected,
}

/// The status after the features were announced.
pub open spec fn announced() -> u8 {
    11
}

/// One step of bringing the device up: reset it, acknowledge it, read its
/// features, insist on version 1, write that as the driver's features, announce
/// them, and see whether the device agrees.
pub open spec fn init_next(phase: InitPhase, event: InitEvent) -> (InitPhase, InitAccess) {
    match (phase, event) {
        (InitPhase::Start, InitEvent::Written) => (InitPhase::Reset, InitAccess::WriteStatus(0)),
        (InitPhase::Reset, InitEvent::Written) => (
            InitPhase::Acknowledged,
            InitAccess::WriteStatus(3),
        ),
        (InitPhase::Acknowledged, InitEvent::Written) => (
            InitPhase::FeaturesRead,
            InitAccess::ReadFeatures,
        ),
        (InitPhase::FeaturesRead, InitEvent::Features(features)) => if has_feature(
            features,
            VIRTIO_F_VERSION_1,
        ) {
            (InitPhase::FeaturesWritten, InitAccess::WriteFeatures(VIRTIO_F_VERSION_1))
        } else {
            (InitPhase::Finished, InitAccess::Unsupported)
        },
        (InitPhase::FeaturesWritten, InitEvent::Written) => (
            InitPhase::FeaturesAnnounced,
            InitAccess::WriteStatus(announced()),
        ),
        (InitPhase::FeaturesAnnounced, InitEvent::Written) => (
            InitPhase::FeaturesChecked,
            InitAccess::ReadStatus,
        ),
        (InitPhase::FeaturesChecked, InitEvent::Status(status)) => if status & FEATURES_OK
            == FEATURES_OK {
            (InitPhase::Finished, InitAccess::Done(VIRTIO_F_VERSION_1))
        } else {
            (InitPhase::Refused, InitAccess::WriteStatus(FAILED))
        },
        (InitPhase::Refused, InitEvent::Written) => (
            InitPhase::Finished,
            InitAccess::NotNegotiated,
        ),
        _ => (phase, InitAccess::Unexpected),
    }
}

/// One step of bringing the device up.
pub fn init(phase: InitPhase, event: InitEvent) -> (r: (InitPhase, InitAccess))
    ensures
        r == init_next(phase, event),
{
    match (phase, event) {
        (InitPhase::Start, InitEvent::Written) => (InitPhase::Reset, InitAccess::WriteStatus(0)),
        (InitPhase::Reset, InitEvent::Written) => {
            (InitPhase::Acknowledged, InitAccess::WriteStatus(ACKNOWLEDGE + DRIVER))
        },
        (InitPhase::Acknowledged, InitEvent::Written) => {
            (InitPhase::FeaturesRead, InitAccess::ReadFeatures)
        },
        (InitPhase::FeaturesRead, InitEvent::Features(features)) => {
            if contains_feature(features, VIRTIO_F_VERSION_1) {
                (InitPhase::FeaturesWritten, InitAccess::WriteFeatures(VIRTIO_F_VERSION_1))
            } else {
                (InitPhase::Finished, InitAccess::Unsupported)
            }
        },
        (InitPhase::FeaturesWritten, InitEvent::Written) => {
            (
                InitPhase::FeaturesAnnounced,
                InitAccess::WriteStatus(ACKNOWLEDGE + DRIVER + FEATURES_OK),
            )
        },
        (InitPhase::FeaturesAnnounced, InitEvent::Written) => {
            (InitPhase::FeaturesChecked, InitAccess::ReadStatus)
        },
        (InitPhase::FeaturesChecked, InitEvent::Status(status)) => {
            if is_status_ok(status, FEATURES_OK) {
                (InitPhase::Finished, InitAccess::Done(VIRTIO_F_VERSION_1))
            } else {
                (InitPhase::Refused, InitAccess::WriteStatus(FAILED))
            }
        },
        (InitPhase::Refused, InitEvent::Written) => {
            (InitPhase::Finished, InitAccess::NotNegotiated)
        },
        _ => (phase, InitAccess::Unexpected),
    }
}

/// Whether the status has these bits.
pub fn is_status_ok(status: u8, bits: u8) -> (r: bool)
    ensures
        r == (status & bits == bits),
{
    status & bits == bits
}

/// The status that completes the initialization.
pub fn final_status() -> (r: u8)
    ensures
        r == 15,
{
    ACKNOWLEDGE + DRIVER + FEATURES_OK + DRIVER_OK
}

/// What to write after the final status was read back: nothing if the device took
/// it, the failure bit if it did not.
pub fn finish_init(status: u8) -> (r: Option<u8>)
    ensures
        r == if status & DRIVER_OK == DRIVER_OK {
            None
        } else {
            Some(FAILED)
        },
{
    if is_status_ok(status, DRIVER_OK) {
        None
    } else {
        Some(FAILED)
    }
}

/// Whether the value of a queue's enable register says that the queue is in use.
pub fn queue_in_used(enable: u16) -> (r: bool)
    ensures
        r == (enable == 1),
{
    enable == 1
}

/// The event that answers an access of a device with these features that reads
/// this status back.
pub open spec fn answer(access: InitAccess, features: u64, status: u8) -> InitEvent {
    match access {
        InitAccess::ReadFeatures => InitEvent::Features(features),
        InitAccess::ReadStatus => InitEvent::Status(status),
        _ => InitEvent::Written,
    }
}

/// The phase and access after `n` steps against such a device.
pub open spec fn after_steps(features: u64, status: u8, n: nat) -> (InitPhase, InitAccess)
    decreases n,
{
    if n == 0 {
        init_next(InitPhase::Start, InitEvent::Written)
    } else {
        let (phase, access) = after_steps(features, status, (n - 1) as nat);
        init_next(phase, answer(access, features, status))
    }
}

/// A device that complies with version 1 and agrees comes up with exactly that
/// feature; one that does not comply is turned down before any features are written;
/// one that does not agree is marked as failed.
pub proof fn law_init_outcome(features: u64, status: u8)
    ensures
        has_feature(features, VIRTIO_F_VERSION_1) && status & FEATURES_OK == FEATURES_OK
            ==> after_steps(features, status, 6) == (
            InitPhase::Finished,
            InitAccess::Done(VIRTIO_F_VERSION_1),
        ),
        !has_feature(features, VIRTIO_F_VERSION_1) ==> after_steps(features, status, 3) == (
            InitPhase::Finished,
            InitAccess::Unsupported,
        ),
        has_feature(features, VIRTIO_F_VERSION_1) && status & FEATURES_OK != FEATURES_OK ==> {
            &&& after_steps(features, status, 6) == (
                InitPhase::Refused,
                InitAccess::WriteStatus(FAILED),
            )
            &&& after_steps(features, status, 7) == (
                InitPhase::Finished,
                InitAccess::NotNegotiated,
            )
        },
{
    reveal_with_fuel(after_steps, 8);
}

/// The order of things, whatever the device: the status is cleared, then says that the
/// device was noticed and has a driver, then the features are read. If they hold bit 32,
/// that bit alone is written back, the status says that the features are agreed upon, and
/// is read again.
pub proof fn law_init_sequence(features: u64, status: u8)
    ensures
        after_steps(features, status, 0).1 == InitAccess::WriteStatus(0),
        after_steps(features, status, 1).1 == InitAccess::WriteStatus(1u8 | 2),
        after_steps(features, status, 2).1 == InitAccess::ReadFeatures,
        (features >> 32) & 1 == 1 ==> {
            &&& after_steps(features, status, 3).1 == InitAccess::WriteFeatures(1u64 << 32)
            &&& after_steps(features, status, 4).1 == InitAccess::WriteStatus(1u8 | 2 | 8)
            &&& after_steps(features, status, 5).1 == InitAccess::ReadStatus
            &&& (status >> 3) & 1 == 1 ==> after_steps(features, status, 6).1 == InitAccess::Done(
                1u64 << 32,
            )
            &&& (status >> 3) & 1 == 0 ==> after_steps(features, status, 6).1
                == InitAccess::WriteStatus(1u8 << 7)
        },
        (features >> 32) & 1 == 0 ==> after_steps(features, status, 3).1 == InitAccess::Unsupported,
{
    reveal_with_fuel(after_steps, 8);
    assert(1u8 | 2 == 3 && 1u8 | 2 | 8 == 11 && 1u8 << 7 == 128 && 1u64 << 32 == 0x1_0000_0000)
        by (bit_vector);
    assert(((features >> 32) & 1 == 1) <==> (features & 0x1_0000_0000 == 0x1_0000_0000))
        by (bit_vector);
    assert((features >> 32) & 1 == 1 || (features >> 32) & 1 == 0) by (bit_vector);
    assert(((status >> 3) & 1 == 1) <==> (status & 8 == 8)) by (bit_vector);
    assert((status >> 3) & 1 == 1 || (status >> 3) & 1 == 0) by (bit_vector);
}

/// Features come back from their halves.
pub proof fn law_features_in_halves(features: u64)
    ensures
        (features % 0x1_0000_0000) + 0x1_0000_0000 * (features / 0x1_0000_0000) == features,
{
}

} // verus!
