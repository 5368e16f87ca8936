//! The PCI capability list of a VirtIO device: which BARs hold its registers and
//! where in them.

use vstd::prelude::*;

use std::collections::BTreeMap;

use vstd::std_specs::btree::*;

use crate::virtio::bytes::{read_u16, read_u32, u16_at, u32_at};
use crate::virtio::queue::{pages, PAGE_SIZE};

verus! {

broadcast use group_btree_axioms;

/// Id of a vendor specific capability, which VirtIO uses.
pub const PCI_CAP_ID_VNDR: u8 = 0x09;

/// Kind of a capability: common configuration.
pub const VIRTIO_PCI_CAP_COMMON_CFG: u8 = 1;

/// Kind of a capability: notifications.
pub const VIRTIO_PCI_CAP_NOTIFY_CFG: u8 = 2;

/// Kind of a capability: interrupt status.
pub const VIRTIO_PCI_CAP_ISR_CFG: u8 = 3;

/// Kind of a capability: device specific configuration.
pub const VIRTIO_PCI_CAP_DEVICE_CFG: u8 = 4;

/// Offset of the status register.
pub const PCI_STATUS_OFFSET: usize = 0x06;

/// Offset of the pointer to the first capability.
pub const PCI_CAP_POINTER_OFFSET: usize = 0x34;

/// Bytes of configuration space that the capability list can reach.
pub const CONFIG_BYTES: usize = 279;

/// A vendor specific capability.
#[derive(Copy, Clone, Debug, PartialEq, Eq, Structural)]
pub struct PciCapability {
    pub cap_vndr: u8,
    pub cap_next: u8,
    pub cap_len: u8,
    pub cfg_type: u8,
    pub bar: u8,
    pub id: u8,
    pub _padding: u8,
    pub offset: u64,
    pub length: u64,
}

/// Where a group of registers lies: in which BAR, and at which offset.
#[derive(Copy, Clone, Debug, PartialEq, Eq, Structural)]
pub struct Region {
    pub bar: u8,
    pub offset: u64,
}

/// What the capability list tells.
pub struct CapabilityLayout {
    pub common: Region,
    pub notify: Region,
    pub notify_off_multiplier: u32,
    pub isr: Region,
    pub device: Region,
    pub capabilities: Vec<PciCapability>,
}

/// Why the capability list is of no use.
#[derive(Copy, Clone, Debug, PartialEq, Eq, Structural)]
pub enum CapabilityError {
    /// The device has no capability list.
    NoCapabilities,
    /// No common configuration.
    CommonMissing,
    /// No notifications.
    NotifyMissing,
    /// No interrupt status.
    IsrMissing,
    /// No device configuration.
    DeviceMissing,
}

impl CapabilityError {
    /// The message that goes with an error.
    pub fn message(&self) -> (r: &'static str)
        ensures
            r@ == match *self {
                CapabilityError::NoCapabilities => "No capabilities found"@,
                CapabilityError::CommonMissing => "Common configuration not found"@,
                CapabilityError::NotifyMissing => "Notify configuration not found"@,
                CapabilityError::IsrMissing => "ISR configuration not found"@,
                CapabilityError::DeviceMissing => "Device configuration not found"@,
            },
    {
        match self {
            CapabilityError::NoCapabilities => "No capabilities found",
            CapabilityError::CommonMissing => "Common configuration not found",
            CapabilityError::NotifyMissing => "Notify configuration not found",
            CapabilityError::IsrMissing => "ISR configuration not found",
            CapabilityError::DeviceMissing => "Device configuration not found",
        }
    }
}

/// The device has a capability list: bit 4 of its status.
pub open spec fn has_list(config: Seq<u8>) -> bool {
    u16_at(config, PCI_STATUS_OFFSET as int) / 16 % 2 == 1
}

/// The pointers of the list from `ptr` on, at most `fuel` of them.
pub open spec fn pointers(config: Seq<u8>, ptr: u8, fuel: nat) -> Seq<u8>
    decreases fuel,
{
    if ptr == 0 || fuel == 0 {
        Seq::empty()
    } else {
        seq![ptr] + pointers(config, config[ptr + 1], (fuel - 1) as nat)
    }
}

/// The list from `ptr` on ends within `fuel` pointers.
pub open spec fn ends(config: Seq<u8>, ptr: u8, fuel: nat) -> bool
    decreases fuel,
{
    ptr == 0 || (fuel > 0 && ends(config, config[ptr + 1], (fuel - 1) as nat))
}

/// The capability list, if there is one, ends. A pointer is one byte, so a list
/// that ends does so within 255 pointers.
pub open spec fn list_ends(config: Seq<u8>) -> bool {
    has_list(config) ==> ends(config, config[PCI_CAP_POINTER_OFFSET as int], 255)
}

/// The pointers of the capability list.
pub open spec fn list(config: Seq<u8>) -> Seq<u8> {
    pointers(config, config[PCI_CAP_POINTER_OFFSET as int], 255)
}

/// The entry at `ptr` is a vendor specific capability.
pub open spec fn is_vendor(config: Seq<u8>, ptr: u8) -> bool {
    config[ptr as int] == PCI_CAP_ID_VNDR
}

/// A number of which the upper half is given only in long capabilities.
pub open spec fn wide(config: Seq<u8>, ptr: u8, low: int, high: int) -> u64 {
    (u32_at(config, ptr + low) + (if config[ptr + 2] >= 24 {
        0x1_0000_0000 * u32_at(config, ptr + high)
    } else {
        0
    })) as u64
}

/// The capability at `ptr`.
pub open spec fn capability_at(config: Seq<u8>, ptr: u8) -> PciCapability {
    PciCapability {
        cap_vndr: config[ptr as int],
        cap_next: config[ptr + 1],
        cap_len: config[ptr + 2],
        cfg_type: config[ptr + 3],
        bar: config[ptr + 4],
        id: 0,
        _padding: 0,
        offset: wide(config, ptr, 8, 16),
        length: wide(config, ptr, 12, 20),
    }
}

/// The vendor specific capabilities among the pointers, in their order.
pub open spec fn vendor_capabilities(config: Seq<u8>, ptrs: Seq<u8>) -> Seq<PciCapability>
    decreases ptrs.len(),
{
    if ptrs.len() == 0 {
        Seq::empty()
    } else {
        let before = vendor_capabilities(config, ptrs.drop_last());
        if is_vendor(config, ptrs.last()) {
            before.push(capability_at(config, ptrs.last()))
        } else {
            before
        }
    }
}

/// The last of the pointers that leads to a vendor specific capability of a kind.
pub open spec fn last_of_kind(config: Seq<u8>, ptrs: Seq<u8>, kind: u8) -> Option<u8>
    decreases ptrs.len(),
{
    if ptrs.len() == 0 {
        None
    } else if is_vendor(config, ptrs.last()) && config[ptrs.last() + 3] == kind {
        Some(ptrs.last())
    } else {
        last_of_kind(config, ptrs.drop_last(), kind)
    }
}

/// Where the registers of a kind lie. Of several capabilities of the kind the
/// last one counts.
pub open spec fn region_of(config: Seq<u8>, ptrs: Seq<u8>, kind: u8) -> Option<Region> {
    match last_of_kind(config, ptrs, kind) {
        Some(ptr) => Some(
            Region { bar: config[ptr + 4], offset: capability_at(config, ptr).offset },
        ),
        None => None,
    }
}

/// The multiplier of notification offsets, 0 without notifications.
pub open spec fn multiplier_of(config: Seq<u8>, ptrs: Seq<u8>) -> u32 {
    match last_of_kind(config, ptrs, VIRTIO_PCI_CAP_NOTIFY_CFG) {
        Some(ptr) => u32_at(config, ptr + 16),
        None => 0,
    }
}

proof fn lemma_pointers_step(config: Seq<u8>, ptr: u8, fuel: nat)
    requires
        ptr != 0,
        fuel > 0,
        ends(config, ptr, fuel),
    ensures
        ends(config, config[ptr + 1], (fuel - 1) as nat),
        pointers(config, ptr, fuel) == seq![ptr] + pointers(
            config,
            config[ptr + 1],
            (fuel - 1) as nat,
        ),
{
}

/// Whether the capability list ends; one that does not cannot be walked.
pub fn check_list_ends(config: &Vec<u8>) -> (r: bool)
    requires
        config@.len() >= CONFIG_BYTES,
    ensures
        r == list_ends(config@),
{
    if read_u16(config, PCI_STATUS_OFFSET) / 16 % 2 != 1 {
        return true;
    }
    let mut ptr: u8 = config[PCI_CAP_POINTER_OFFSET];
    let mut fuel: u16 = 255;
    while ptr != 0 && fuel > 0
        invariant
            config@.len() >= CONFIG_BYTES,
            ends(config@, config@[PCI_CAP_POINTER_OFFSET as int], 255) == ends(
                config@,
                ptr,
                fuel as nat,
            ),
        decreases fuel,
    {
        ptr = config[ptr as usize + 1];
        fuel = fuel - 1;
    }
    ptr == 0
}

fn read_wide(config: &Vec<u8>, ptr: u8, low: usize, high: usize) -> (r: u64)
    requires
        config@.len() >= CONFIG_BYTES,
        low <= 20,
        high <= 20,
    ensures
        r == wide(config@, ptr, low as int, high as int),
{
    let base: usize = ptr as usize;
    let mut value: u64 = read_u32(config, base + low) as u64;
    if config[base + 2] >= 24 {
        value = value + 0x1_0000_0000 * read_u32(config, base + high) as u64;
    }
    value
}

impl PciCapability {
    /// What the capability list in this configuration space tells. All four
    /// groups of registers have to be there.
    pub fn extract_capabilities(config: &Vec<u8>) -> (r: Result<CapabilityLayout, CapabilityError>)
        requires
            config@.len() >= CONFIG_BYTES,
            list_ends(config@),
        ensures
            ({
                let ptrs = list(config@);
                let common = region_of(config@, ptrs, VIRTIO_PCI_CAP_COMMON_CFG);
                let notify = region_of(config@, ptrs, VIRTIO_PCI_CAP_NOTIFY_CFG);
                let isr = region_of(config@, ptrs, VIRTIO_PCI_CAP_ISR_CFG);
                let device = region_of(config@, ptrs, VIRTIO_PCI_CAP_DEVICE_CFG);
                if !has_list(config@) {
                    r matches Err(e) && e == CapabilityError::NoCapabilities
                } else if common is None {
                    r matches Err(e) && e == CapabilityError::CommonMissing
                } else if notify is None {
                    r matches Err(e) && e == CapabilityError::NotifyMissing
                } else if isr is None {
                    r matches Err(e) && e == CapabilityError::IsrMissing
                } else if device is None {
                    r matches Err(e) && e == CapabilityError::DeviceMissing
                } else {
                    &&& r matches Ok(layout)
                    &&& Some(layout.common) == common
                    &&& Some(layout.notify) == notify
                    &&& layout.notify_off_multiplier == multiplier_of(config@, ptrs)
                    &&& Some(layout.isr) == isr
                    &&& Some(layout.device) == device
                    &&& layout.capabilities@ == vendor_capabilities(config@, ptrs)
                }
            }),
    {
        if read_u16(config, PCI_STATUS_OFFSET) / 16 % 2 != 1 {
            return Err(CapabilityError::NoCapabilities);
        }
        let mut common: Option<Region> = None;
        let mut notify: Option<Region> = None;
        let mut notify_off_multiplier: u32 = 0;
        let mut isr: Option<Region> = None;
        let mut device: Option<Region> = None;
        let mut capabilities: Vec<PciCapability> = Vec::new();
        let mut cap_ptr: u8 = config[PCI_CAP_POINTER_OFFSET];
        let ghost ptrs = list(config@);
        let ghost mut seen: Seq<u8> = Seq::empty();
        let ghost mut fuel: nat = 255;
        proof {
            assert(seen + pointers(config@, cap_ptr, fuel) =~= ptrs);
        }
        while cap_ptr != 0
            invariant
                config@.len() >= CONFIG_BYTES,
                ptrs == list(config@),
                ends(config@, cap_ptr, fuel),
                seen + pointers(config@, cap_ptr, fuel) == ptrs,
                common == region_of(config@, seen, VIRTIO_PCI_CAP_COMMON_CFG),
                notify == region_of(config@, seen, VIRTIO_PCI_CAP_NOTIFY_CFG),
                notify_off_multiplier == multiplier_of(config@, seen),
                isr == region_of(config@, seen, VIRTIO_PCI_CAP_ISR_CFG),
                device == region_of(config@, seen, VIRTIO_PCI_CAP_DEVICE_CFG),
                capabilities@ == vendor_capabilities(config@, seen),
            decreases fuel,
        {
            let base: usize = cap_ptr as usize;
            let cap_id: u8 = config[base];
            let cap_next: u8 = config[base + 1];
            let cap_len: u8 = config[base + 2];
            let ghost now = seen.push(cap_ptr);
            proof {
                assert(now.drop_last() =~= seen);
            }
            if cap_id == PCI_CAP_ID_VNDR {
                let cfg_type: u8 = config[base + 3];
                let bar: u8 = config[base + 4];
                let offset: u64 = read_wide(config, cap_ptr, 8, 16);
                let length: u64 = read_wide(config, cap_ptr, 12, 20);
                capabilities.push(
                    PciCapability {
                        cap_vndr: cap_id,
                        cap_next,
                        cap_len,
                        cfg_type,
                        bar,
                        id: 0,
                        _padding: 0,
                        offset,
                        length,
                    },
                );
                let region = Region { bar, offset };
                match cfg_type {
                    VIRTIO_PCI_CAP_COMMON_CFG => {
                        common = Some(region);
                    },
                    VIRTIO_PCI_CAP_NOTIFY_CFG => {
                        notify_off_multiplier = read_u32(config, base + 16);
                        notify = Some(region);
                    },
                    VIRTIO_PCI_CAP_ISR_CFG => {
                        isr = Some(region);
                    },
                    VIRTIO_PCI_CAP_DEVICE_CFG => {
                        device = Some(region);
                    },
                    _ => {},
                }
            }
            proof {
                lemma_pointers_step(config@, cap_ptr, fuel);
                assert(now + pointers(config@, cap_next, (fuel - 1) as nat) =~= seen + pointers(
                    config@,
                    cap_ptr,
                    fuel,
                ));
                seen = now;
                fuel = (fuel - 1) as nat;
            }
            cap_ptr = cap_next;
        }
        proof {
            assert(seen =~= ptrs);
        }
        let common = match common {
            Some(region) => region,
            None => {
                return Err(CapabilityError::CommonMissing);
            },
        };
        let notify = match notify {
            Some(region) => region,
            None => {
                return Err(CapabilityError::NotifyMissing);
            },
        };
        let isr = match isr {
            Some(region) => region,
            None => {
                return Err(CapabilityError::IsrMissing);
            },
        };
        let device = match device {
            Some(region) => region,
            None => {
                return Err(CapabilityError::DeviceMissing);
            },
        };
        Ok(CapabilityLayout { common, notify, notify_off_multiplier, isr, device, capabilities })
    }

    /// The interrupt vector of a device with this legacy interrupt line.
    pub fn read_irq(irq: u8) -> (r: u8)
        requires
            irq <= 223,
        ensures
            r == irq + 32,
    {
        irq + 32
    }
}

/// The registers through which the device is notified.
#[derive(Copy, Clone, Debug, PartialEq, Eq, Structural)]
pub struct NotifyRegion {
    pub regs: u64,
}

impl NotifyRegion {
    /// The region at this address, which is not null.
    pub fn new(ptr: u64) -> (r: NotifyRegion)
        requires
            ptr != 0,
        ensures
            r.regs == ptr,
    {
        NotifyRegion { regs: ptr }
    }

    /// The address to which the number of a queue is written to notify the device
    /// of it. Registers are two bytes wide.
    pub fn notify(&self, queue_notify_off: u16, notify_off_multiplier: u32) -> (r: u64)
        requires
            self.regs + queue_notify_off * notify_off_multiplier <= u64::MAX,
        ensures
            r == self.regs + queue_notify_off * notify_off_multiplier / 2 * 2,
    {
        proof {
            assert(queue_notify_off * notify_off_multiplier <= 0xffff * 0xffff_ffff)
                by (nonlinear_arith)
                requires
                    queue_notify_off <= 0xffff,
                    notify_off_multiplier <= 0xffff_ffff,
            ;
        }
        let offset_bytes: u64 = queue_notify_off as u64 * notify_off_multiplier as u64;
        let index: u64 = offset_bytes / 2;
        self.regs + index * 2
    }
}

/// The registers of the interrupt status.
#[derive(Copy, Clone, Debug, PartialEq, Eq, Structural)]
pub struct IsrCfgRegisters {
    pub isr_status: u8,
}

/// Where the registers of the interrupt status lie.
#[derive(Copy, Clone, Debug, PartialEq, Eq, Structural)]
pub struct IsrCfg {
    pub regs: u64,
}

impl IsrCfg {
    /// The registers at this address, which is not null.
    pub fn new(base_addr: u64) -> (r: IsrCfg)
        requires
            base_addr != 0,
        ensures
            r.regs == base_addr,
    {
        IsrCfg { regs: base_addr }
    }

    /// The address of the registers.
    pub fn base_addr(&self) -> (r: u64)
        ensures
            r == self.regs,
    {
        self.regs
    }
}

/// The key of a BAR of a device.
pub open spec fn bar_key(device: u32, bar: u8) -> u64 {
    (device * 256 + bar) as u64
}

/// Which BARs are mapped, and where.
pub struct BarMappings {
    mappings: BTreeMap<u64, u64>,
}

/// The pages that a BAR takes: where they begin and how many they are.
#[derive(Copy, Clone, Debug, PartialEq, Eq, Structural)]
pub struct BarPages {
    pub start: u64,
    pub count: usize,
}

impl View for BarMappings {
    type V = Map<u64, u64>;

    closed spec fn view(&self) -> Map<u64, u64> {
        self.mappings@
    }
}

impl BarMappings {
    /// Nothing is mapped.
    pub fn new() -> (r: BarMappings)
        ensures
            r@ == Map::<u64, u64>::empty(),
    {
        BarMappings { mappings: BTreeMap::new() }
    }

    /// Where the BAR of a device is mapped, if it is.
    pub fn lookup(&self, device: u32, bar: u8) -> (r: Option<u64>)
        ensures
            r == if self@.contains_key(bar_key(device, bar)) {
                Some(self@[bar_key(device, bar)])
            } else {
                None
            },
    {
        let key: u64 = device as u64 * 256 + bar as u64;
        match self.mappings.get(&key) {
            Some(base) => Some(*base),
            None => None,
        }
    }

    /// The pages to map for a BAR at this physical address: whole pages, starting
    /// where the BAR starts, which has to be at the start of a page.
    pub fn plan(&self, phys_addr: u64, size: usize) -> (r: Option<BarPages>)
        ensures
            r == if phys_addr % 4096 == 0 {
                Some(
                    BarPages {
                        start: phys_addr,
                        count: ((size + PAGE_SIZE - 1) / PAGE_SIZE as int) as usize,
                    },
                )
            } else {
                None
            },
    {
        if phys_addr % 4096 != 0 {
            return None;
        }
        Some(BarPages { start: phys_addr, count: pages(size) })
    }

    /// Remember that a BAR was mapped at its physical address.
    pub fn remember(&mut self, device: u32, bar: u8, base: u64)
        ensures
            final(self)@ == old(self)@.insert(bar_key(device, bar), base),
    {
        let key: u64 = device as u64 * 256 + bar as u64;
        let _ = self.mappings.insert(key, base);
    }
}

/// A BAR is found where it was mapped, and mapping it leaves every other BAR where
/// it was.
pub proof fn law_bar_is_mapped_once(
    mappings: Map<u64, u64>,
    device: u32,
    bar: u8,
    base: u64,
    other_device: u32,
    other_bar: u8,
)
    ensures
        mappings.insert(bar_key(device, bar), base)[bar_key(device, bar)] == base,
        (other_device, other_bar) != (device, bar) ==> {
            let after = mappings.insert(bar_key(device, bar), base);
            let key = bar_key(other_device, other_bar);
            after.contains_key(key) == mappings.contains_key(key) && (mappings.contains_key(key)
                ==> after[key] == mappings[key])
        },
{
}

/// A vendor specific capability of a kind stands at `ptr`.
pub open spec fn of_kind(config: Seq<u8>, ptr: u8, kind: int) -> bool {
    config[ptr as int] == 0x09 && config[ptr + 3] == kind
}

/// The region is that of the last of the pointers that lead to a capability of this kind.
pub open spec fn is_last_region(
    config: Seq<u8>,
    ptrs: Seq<u8>,
    kind: int,
    region: Option<Region>,
) -> bool {
    match region {
        Some(region) => exists|k: int|
            {
                &&& 0 <= k < ptrs.len()
                &&& #[trigger] of_kind(config, ptrs[k], kind)
                &&& forall|j: int| k < j < ptrs.len() ==> !#[trigger] of_kind(config, ptrs[j], kind)
                &&& region.bar == config[ptrs[k] + 4]
                &&& region.offset % 0x1_0000_0000 == u32_at(config, ptrs[k] + 8)
                &&& region.offset / 0x1_0000_0000 == if config[ptrs[k] + 2] >= 24 {
                    u32_at(config, ptrs[k] + 16) as int
                } else {
                    0
                }
            },
        None => forall|k: int| 0 <= k < ptrs.len() ==> !#[trigger] of_kind(config, ptrs[k], kind),
    }
}

/// Each field of a capability stands at its own place behind the pointer. The upper halves
/// of the offset and the length are there only if the capability has 24 bytes or more.
pub proof fn law_capability_fields(config: Seq<u8>, ptr: u8)
    ensures
        ({
            let cap = capability_at(config, ptr);
            &&& cap.cap_vndr == config[ptr as int]
            &&& cap.cap_next == config[ptr + 1]
            &&& cap.cap_len == config[ptr + 2]
            &&& cap.cfg_type == config[ptr + 3]
            &&& cap.bar == config[ptr + 4]
            &&& cap.id == 0 && cap._padding == 0
            &&& cap.offset % 0x1_0000_0000 == u32_at(config, ptr + 8)
            &&& cap.length % 0x1_0000_0000 == u32_at(config, ptr + 12)
            &&& config[ptr + 2] >= 24 ==> {
                &&& cap.offset / 0x1_0000_0000 == u32_at(config, ptr + 16)
                &&& cap.length / 0x1_0000_0000 == u32_at(config, ptr + 20)
            }
            &&& config[ptr + 2] < 24 ==> {
                cap.offset < 0x1_0000_0000 && cap.length < 0x1_0000_0000
            }
        }),
{
    let (a, b) = (u32_at(config, ptr + 8), u32_at(config, ptr + 16));
    let (c, d) = (u32_at(config, ptr + 12), u32_at(config, ptr + 20));
    assert(a + 0x1_0000_0000 * b <= u64::MAX);
    assert(c + 0x1_0000_0000 * d <= u64::MAX);
}

/// Whether there is a list is told by bit 4 of the low byte of the status.
pub proof fn law_list_bit(config: Seq<u8>)
    ensures
        has_list(config) <==> config[6] / 16 % 2 == 1,
{
    let (low, high) = (config[6], config[7]);
    assert(u16_at(config, 6) == low + 256 * high);
}

/// The list begins with the pointer at its fixed place. Behind each pointer comes the one
/// in the second byte that it leads to, until this is 0.
pub proof fn law_list_is_linked(config: Seq<u8>)
    requires
        has_list(config),
        list_ends(config),
    ensures
        ({
            let ptrs = list(config);
            &&& config[0x34] == 0 ==> ptrs.len() == 0
            &&& config[0x34] != 0 ==> ptrs.len() > 0 && ptrs[0] == config[0x34]
            &&& forall|k: int|
                0 <= k < ptrs.len() ==> config[#[trigger] ptrs[k] + 1] == if k + 1 < ptrs.len() {
                    ptrs[k + 1]
                } else {
                    0
                }
            &&& forall|k: int| 0 <= k < ptrs.len() ==> #[trigger] ptrs[k] != 0
        }),
{
    lemma_linked(config, config[0x34], 255);
}

proof fn lemma_linked(config: Seq<u8>, ptr: u8, fuel: nat)
    requires
        ends(config, ptr, fuel),
    ensures
        ({
            let ptrs = pointers(config, ptr, fuel);
            &&& ptr == 0 ==> ptrs.len() == 0
            &&& ptr != 0 ==> ptrs.len() > 0 && ptrs[0] == ptr
            &&& forall|k: int|
                0 <= k < ptrs.len() ==> config[#[trigger] ptrs[k] + 1] == if k + 1 < ptrs.len() {
                    ptrs[k + 1]
                } else {
                    0
                }
            &&& forall|k: int| 0 <= k < ptrs.len() ==> #[trigger] ptrs[k] != 0
        }),
    decreases fuel,
{
    if ptr != 0 {
        lemma_pointers_step(config, ptr, fuel);
        let next = config[ptr + 1];
        lemma_linked(config, next, (fuel - 1) as nat);
        let rest = pointers(config, next, (fuel - 1) as nat);
        let ptrs = pointers(config, ptr, fuel);
        assert forall|k: int| 0 <= k < ptrs.len() implies config[#[trigger] ptrs[k] + 1] == (if k
            + 1 < ptrs.len() {
            ptrs[k + 1]
        } else {
            0
        }) && ptrs[k] != 0 by {
            if k > 0 {
                assert(ptrs[k] == rest[k - 1]);
                if k + 1 < ptrs.len() {
                    assert(ptrs[k + 1] == rest[k]);
                }
            } else if ptrs.len() > 1 {
                assert(ptrs[1] == rest[0]);
            }
        }
    }
}

proof fn lemma_last_region(config: Seq<u8>, ptrs: Seq<u8>, kind: u8)
    ensures
        is_last_region(config, ptrs, kind as int, region_of(config, ptrs, kind)),
        match last_of_kind(config, ptrs, kind) {
            Some(ptr) => exists|k: int|
                {
                    &&& 0 <= k < ptrs.len()
                    &&& #[trigger] of_kind(config, ptrs[k], kind as int)
                    &&& ptrs[k] == ptr
                    &&& forall|j: int|
                        k < j < ptrs.len() ==> !#[trigger] of_kind(config, ptrs[j], kind as int)
                },
            None => true,
        },
    decreases ptrs.len(),
{
    if ptrs.len() > 0 {
        let n = ptrs.len() - 1;
        let rest = ptrs.drop_last();
        if of_kind(config, ptrs.last(), kind as int) {
            law_capability_fields(config, ptrs.last());
            assert(of_kind(config, ptrs[n], kind as int));
        } else {
            lemma_last_region(config, rest, kind);
            match last_of_kind(config, rest, kind) {
                Some(ptr) => {
                    let k = choose|k: int|
                        {
                            &&& 0 <= k < rest.len()
                            &&& #[trigger] of_kind(config, rest[k], kind as int)
                            &&& rest[k] == ptr
                            &&& forall|j: int|
                                k < j < rest.len() ==> !#[trigger] of_kind(
                                    config,
                                    rest[j],
                                    kind as int,
                                )
                        };
                    assert(of_kind(config, ptrs[k], kind as int) && ptrs[k] == ptr);
                    law_capability_fields(config, ptr);
                    assert forall|j: int| k < j < ptrs.len() implies !#[trigger] of_kind(
                        config,
                        ptrs[j],
                        kind as int,
                    ) by {
                        if j < n {
                            assert(ptrs[j] == rest[j]);
                        }
                    }
                },
                None => {
                    assert forall|k: int| 0 <= k < ptrs.len() implies !#[trigger] of_kind(
                        config,
                        ptrs[k],
                        kind as int,
                    ) by {
                        if k < n {
                            assert(ptrs[k] == rest[k]);
                        }
                    }
                },
            }
        }
    }
}

/// Each group of registers is where the last vendor specific capability of its kind says:
/// the common configuration is of kind 1, the notifications of kind 2, the interrupt
/// status of kind 3 and the device configuration of kind 4.
pub proof fn law_regions(config: Seq<u8>, ptrs: Seq<u8>)
    ensures
        is_last_region(config, ptrs, 1, region_of(config, ptrs, VIRTIO_PCI_CAP_COMMON_CFG)),
        is_last_region(config, ptrs, 2, region_of(config, ptrs, VIRTIO_PCI_CAP_NOTIFY_CFG)),
        is_last_region(config, ptrs, 3, region_of(config, ptrs, VIRTIO_PCI_CAP_ISR_CFG)),
        is_last_region(config, ptrs, 4, region_of(config, ptrs, VIRTIO_PCI_CAP_DEVICE_CFG)),
{
    lemma_last_region(config, ptrs, VIRTIO_PCI_CAP_COMMON_CFG);
    lemma_last_region(config, ptrs, VIRTIO_PCI_CAP_NOTIFY_CFG);
    lemma_last_region(config, ptrs, VIRTIO_PCI_CAP_ISR_CFG);
    lemma_last_region(config, ptrs, VIRTIO_PCI_CAP_DEVICE_CFG);
}

/// The multiplier stands behind the last capability for notifications.
pub proof fn law_multiplier(config: Seq<u8>, ptrs: Seq<u8>, k: int)
    requires
        0 <= k < ptrs.len(),
        of_kind(config, ptrs[k], 2),
        forall|j: int| k < j < ptrs.len() ==> !#[trigger] of_kind(config, ptrs[j], 2),
    ensures
        multiplier_of(config, ptrs) == u32_at(config, ptrs[k] + 16),
{
    lemma_last_region(config, ptrs, 2);
    lemma_found(config, ptrs, 2, k);
}

proof fn lemma_found(config: Seq<u8>, ptrs: Seq<u8>, kind: u8, k: int)
    requires
        0 <= k < ptrs.len(),
        of_kind(config, ptrs[k], kind as int),
        forall|j: int| k < j < ptrs.len() ==> !#[trigger] of_kind(config, ptrs[j], kind as int),
    ensures
        last_of_kind(config, ptrs, kind) == Some(ptrs[k]),
    decreases ptrs.len(),
{
    let n = ptrs.len() - 1;
    if k < n {
        assert(!of_kind(config, ptrs[n], kind as int));
        let rest = ptrs.drop_last();
        assert(rest[k] == ptrs[k]);
        assert forall|j: int| k < j < rest.len() implies !#[trigger] of_kind(
            config,
            rest[j],
            kind as int,
        ) by {
            assert(rest[j] == ptrs[j]);
        }
        lemma_found(config, rest, kind, k);
    }
}

/// The capabilities that are kept are those with the vendor specific id, each of them
/// once, in the order of the list.
pub proof fn law_vendor_capabilities(config: Seq<u8>, ptrs: Seq<u8>)
    ensures
        vendor_capabilities(config, ptrs) == ptrs.filter(
            |ptr: u8| config[ptr as int] == 0x09,
        ).map_values(|ptr: u8| capability_at(config, ptr)),
    decreases ptrs.len(),
{
    let keep = |ptr: u8| config[ptr as int] == 0x09;
    let read = |ptr: u8| capability_at(config, ptr);
    reveal(Seq::filter);
    if ptrs.len() > 0 {
        law_vendor_capabilities(config, ptrs.drop_last());
        let before = ptrs.drop_last().filter(keep);
        if keep(ptrs.last()) {
            assert(before.push(ptrs.last()).map_values(read) =~= before.map_values(read).push(
                read(ptrs.last()),
            ));
        }
    }
    assert(vendor_capabilities(config, ptrs) =~= ptrs.filter(keep).map_values(read));
}

} // verus!
