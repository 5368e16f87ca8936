//! The VirtIO GPU driver: which commands it sends, and what it makes of responses
//! and interrupts.

use vstd::prelude::*;
use vstd::string::*;

use crate::text::{decimal, push_decimal};
use crate::virtio::protocol::{
    unexpected_text,
    VirtioGpuCtrlHdr,
    VirtioGpuCtrlType,
    VirtioGpuRect,
    VirtioGpuResourceAttachBacking,
    VirtioGpuResourceCreate2d,
    VirtioGpuResourceFlush,
    VirtioGpuRespDisplayInfo,
    VirtioGpuScanout,
    VirtioGpuSetScanout,
    VirtioGpuTransferToHost2d,
    B8G8R8A8UNORM,
    CURSOR_QUEUE,
    GET_DISPLAY_INFO,
    RESOURCE_ATTACH_BACKING,
    RESOURCE_CREATE2D,
    RESOURCE_FLUSH,
    RESP_OK_DISPLAY_INFO,
    RESP_OK_NODATA,
    SET_SCANOUT,
    TRANSFER_TO_HOST2D,
};
use crate::virtio::queue::{pages, QueueError, VirtioQueue, PAGE_SIZE};

verus! {

/// Descriptors of the control queue.
pub const QUEUE_LEN: usize = 64;

/// The number of the framebuffer's resource.
pub const DEFAULT_RESOURCE_ID: u32 = 42;

/// The device specific registers.
#[derive(Copy, Clone, Debug, PartialEq, Eq, Structural)]
pub struct GpuConfig {
    pub events_read: u32,
    pub events_clear: u32,
    pub num_scanouts: u32,
    pub num_capsets: u32,
}

/// Where the device specific registers lie.
#[derive(Copy, Clone, Debug, PartialEq, Eq, Structural)]
pub struct GpuCfg {
    pub regs: u64,
}

impl GpuCfg {
    /// The registers at this address, which is not null.
    pub fn new(base_addr: u64) -> (r: GpuCfg)
        requires
            base_addr != 0,
        ensures
            r.regs == base_addr,
    {
        GpuCfg { regs: base_addr }
    }
}

/// Why the queues could not be set up.
#[derive(Copy, Clone, Debug, PartialEq, Eq, Structural)]
pub enum SetupError {
    /// The control queue failed.
    ControlQueue(QueueError),
    /// The device has a queue that a GPU does not have.
    UnexpectedQueue(u16),
    /// The device has no control queue.
    NotInitialized,
}

impl SetupError {
    /// The message that goes with an error.
    pub open spec fn text(self) -> Seq<char> {
        match self {
            SetupError::ControlQueue(e) => ("control queue init failed: \""@ + e.text()).push('"'),
            SetupError::UnexpectedQueue(i) => "Unexpected queue index: "@ + decimal(i as nat),
            SetupError::NotInitialized => "Control queue not initialized"@,
        }
    }

    /// The message that goes with an error.
    pub fn message(&self) -> (r: String)
        ensures
            r@ == self.text(),
    {
        match self {
            SetupError::ControlQueue(e) => {
                let mut s = "control queue init failed: \"".to_owned();
                s.push_str(e.message().as_str());
                s.push('"');
                s
            },
            SetupError::UnexpectedQueue(i) => {
                let mut s = "Unexpected queue index: ".to_owned();
                push_decimal(&mut s, *i as u64);
                s
            },
            SetupError::NotInitialized => "Control queue not initialized".to_owned(),
        }
    }
}

/// What comes of setting up the queues of a device that has `num_queues` of them:
/// the control queue is set up, the cursor queue is left alone, and a further
/// queue is more than a GPU has. `control` is what came of the control queue.
pub fn setup_queues(
    num_queues: u16,
    control: Result<VirtioQueue<QUEUE_LEN>, QueueError>,
) -> (r: Result<VirtioQueue<QUEUE_LEN>, SetupError>)
    ensures
        num_queues == 0 ==> (r matches Err(e) && e == SetupError::NotInitialized),
        num_queues > 0 ==> match control {
            Err(q) => r matches Err(e) && e == SetupError::ControlQueue(q),
            Ok(queue) => if num_queues > 2 {
                r matches Err(e) && e == SetupError::UnexpectedQueue(2)
            } else {
                r matches Ok(got) && got == queue
            },
        },
{
    if num_queues == 0 {
        return Err(SetupError::NotInitialized);
    }
    match control {
        Err(e) => Err(SetupError::ControlQueue(e)),
        Ok(queue) => {
            if num_queues > CURSOR_QUEUE + 1 {
                Err(SetupError::UnexpectedQueue(CURSOR_QUEUE + 1))
            } else {
                Ok(queue)
            }
        },
    }
}

/// The command that asks what displays there are.
pub fn display_info_command() -> (r: VirtioGpuCtrlHdr)
    ensures
        r == VirtioGpuCtrlHdr::of_type(GET_DISPLAY_INFO),
{
    VirtioGpuCtrlHdr::with_ctrl_type(VirtioGpuCtrlType(GET_DISPLAY_INFO))
}

/// The displays in the bytes of a response, if it is the expected one.
pub fn fetch_display_info(response: &Vec<u8>) -> (r: Result<VirtioGpuRespDisplayInfo, String>)
    requires
        response@.len() >= 408,
    ensures
        ({
            let hdr = VirtioGpuCtrlHdr::of_bytes(response@);
            if hdr.type_ == RESP_OK_DISPLAY_INFO {
                &&& r matches Ok(info)
                &&& info.hdr == hdr
                &&& info.pmodes@ == Seq::new(
                    16,
                    |i: int| VirtioGpuScanout::of_bytes(response@, 24 + 24 * i),
                )
            } else {
                r matches Err(e) && e@ == unexpected_text(hdr.type_, RESP_OK_DISPLAY_INFO)
            }
        }),
{
    let info = VirtioGpuRespDisplayInfo::decode(response);
    match info.hdr.check_ctrl_type(VirtioGpuCtrlType(RESP_OK_DISPLAY_INFO)) {
        Ok(()) => Ok(info),
        Err(e) => Err(e),
    }
}

/// The size of the primary display.
pub fn get_resolution(info: &VirtioGpuRespDisplayInfo) -> (r: (u32, u32))
    requires
        info.pmodes@.len() > 0,
    ensures
        r.0 == info.pmodes@[0].rect.width,
        r.1 == info.pmodes@[0].rect.height,
{
    let mode = info.pmodes[0];
    (mode.rect.width, mode.rect.height)
}

/// Whether a response says that a command without data was carried out.
pub fn check_done(response: &Vec<u8>) -> (r: Result<(), String>)
    requires
        response@.len() >= 24,
    ensures
        ({
            let got = VirtioGpuCtrlHdr::of_bytes(response@).type_;
            &&& r is Ok <==> got == RESP_OK_NODATA
            &&& r matches Err(e) ==> e@ == unexpected_text(got, RESP_OK_NODATA)
        }),
{
    VirtioGpuCtrlHdr::decode(response).check_ctrl_type(VirtioGpuCtrlType(RESP_OK_NODATA))
}

/// The command that creates a resource.
pub fn create_2d_resource(id: u32, width: u32, height: u32) -> (r: VirtioGpuResourceCreate2d)
    ensures
        r == (VirtioGpuResourceCreate2d {
            hdr: VirtioGpuCtrlHdr::of_type(RESOURCE_CREATE2D),
            resource_id: id,
            format: B8G8R8A8UNORM,
            width,
            height,
        }),
{
    VirtioGpuResourceCreate2d {
        hdr: VirtioGpuCtrlHdr::with_ctrl_type(VirtioGpuCtrlType(RESOURCE_CREATE2D)),
        resource_id: id,
        format: B8G8R8A8UNORM,
        width,
        height,
    }
}

/// The command that gives a resource memory.
pub fn attach_backing(id: u32, paddr: u64, length: u32) -> (r: VirtioGpuResourceAttachBacking)
    ensures
        r == (VirtioGpuResourceAttachBacking {
            hdr: VirtioGpuCtrlHdr::of_type(RESOURCE_ATTACH_BACKING),
            resource_id: id,
            nr_entries: 1,
            addr: paddr,
            len: length,
        }),
{
    VirtioGpuResourceAttachBacking {
        hdr: VirtioGpuCtrlHdr::with_ctrl_type(VirtioGpuCtrlType(RESOURCE_ATTACH_BACKING)),
        resource_id: id,
        nr_entries: 1,
        addr: paddr,
        len: length,
    }
}

/// The command that shows a resource.
pub fn set_scanout_rect(rect: VirtioGpuRect, scanout: u32, id: u32) -> (r: VirtioGpuSetScanout)
    ensures
        r == (VirtioGpuSetScanout {
            hdr: VirtioGpuCtrlHdr::of_type(SET_SCANOUT),
            r: rect,
            scanout_id: scanout,
            resource_id: id,
        }),
{
    VirtioGpuSetScanout {
        hdr: VirtioGpuCtrlHdr::with_ctrl_type(VirtioGpuCtrlType(SET_SCANOUT)),
        r: rect,
        scanout_id: scanout,
        resource_id: id,
    }
}

/// The command that copies a part of the framebuffer to the host.
pub fn transfer_to_host(rect: VirtioGpuRect) -> (r: VirtioGpuTransferToHost2d)
    ensures
        r == (VirtioGpuTransferToHost2d {
            hdr: VirtioGpuCtrlHdr::of_type(TRANSFER_TO_HOST2D),
            r: rect,
            offset: 0,
            resource_id: DEFAULT_RESOURCE_ID,
        }),
{
    VirtioGpuTransferToHost2d {
        hdr: VirtioGpuCtrlHdr::with_ctrl_type(VirtioGpuCtrlType(TRANSFER_TO_HOST2D)),
        r: rect,
        offset: 0,
        resource_id: DEFAULT_RESOURCE_ID,
    }
}

/// The command that brings a part of the framebuffer onto the display.
pub fn flush_resource(rect: VirtioGpuRect) -> (r: VirtioGpuResourceFlush)
    ensures
        r == (VirtioGpuResourceFlush {
            hdr: VirtioGpuCtrlHdr::of_type(RESOURCE_FLUSH),
            r: rect,
            resource_id: DEFAULT_RESOURCE_ID,
        }),
{
    VirtioGpuResourceFlush {
        hdr: VirtioGpuCtrlHdr::with_ctrl_type(VirtioGpuCtrlType(RESOURCE_FLUSH)),
        r: rect,
        resource_id: DEFAULT_RESOURCE_ID,
    }
}

/// The framebuffer and the events of the device.
pub struct VirtioGpu {
    /// The rectangle on display, once there is a framebuffer.
    pub current_rect: Option<VirtioGpuRect>,
    /// The configuration of the device changed.
    pub config_change: bool,
    /// The device has answered.
    pub queue_notify: bool,
}

/// How a framebuffer is made.
pub struct FramebufferPlan {
    pub create: VirtioGpuResourceCreate2d,
    /// Bytes of the framebuffer.
    pub size: u32,
    /// Pages of memory to allocate for it.
    pub pages: usize,
}

impl VirtioGpu {
    /// No framebuffer, no events.
    pub fn new() -> (r: VirtioGpu)
        ensures
            r.current_rect is None,
            !r.config_change,
            !r.queue_notify,
    {
        VirtioGpu { current_rect: None, config_change: false, queue_notify: false }
    }

    /// Begin to make a framebuffer of the size of the primary display, four bytes
    /// for each pixel.
    pub fn initialize_framebuffer(&mut self, info: &VirtioGpuRespDisplayInfo) -> (r:
        FramebufferPlan)
        requires
            info.pmodes@.len() > 0,
            info.pmodes@[0].rect.width * info.pmodes@[0].rect.height * 4 <= u32::MAX,
        ensures
            ({
                let rect = info.pmodes@[0].rect;
                let size = rect.width * rect.height * 4;
                &&& final(self).current_rect == Some(rect)
                &&& final(self).config_change == old(self).config_change
                &&& final(self).queue_notify == old(self).queue_notify
                &&& r.create == (VirtioGpuResourceCreate2d {
                    hdr: VirtioGpuCtrlHdr::of_type(RESOURCE_CREATE2D),
                    resource_id: DEFAULT_RESOURCE_ID,
                    format: B8G8R8A8UNORM,
                    width: rect.width,
                    height: rect.height,
                })
                &&& r.size == size
                &&& r.pages == (size + PAGE_SIZE - 1) / PAGE_SIZE as int
            }),
    {
        let rect = info.pmodes[0].rect;
        self.current_rect = Some(rect);
        proof {
            assert(rect.width * rect.height >= 0) by (nonlinear_arith)
                requires
                    rect.width >= 0,
                    rect.height >= 0,
            ;
        }
        let size: u32 = rect.width * rect.height * 4;
        FramebufferPlan {
            create: create_2d_resource(DEFAULT_RESOURCE_ID, rect.width, rect.height),
            size,
            pages: pages(size as usize),
        }
    }

    /// The commands that bring the whole framebuffer onto the display, once there
    /// is one.
    pub fn flush_framebuffer(&self) -> (r: Option<
        (VirtioGpuTransferToHost2d, VirtioGpuResourceFlush),
    >)
        ensures
            match self.current_rect {
                None => r is None,
                Some(rect) => r == Some(
                    (
                        VirtioGpuTransferToHost2d {
                            hdr: VirtioGpuCtrlHdr::of_type(TRANSFER_TO_HOST2D),
                            r: rect,
                            offset: 0,
                            resource_id: DEFAULT_RESOURCE_ID,
                        },
                        VirtioGpuResourceFlush {
                            hdr: VirtioGpuCtrlHdr::of_type(RESOURCE_FLUSH),
                            r: rect,
                            resource_id: DEFAULT_RESOURCE_ID,
                        },
                    ),
                ),
            },
    {
        match self.current_rect {
            Some(rect) => Some((transfer_to_host(rect), flush_resource(rect))),
            None => None,
        }
    }

    /// Note the events that the interrupt status tells: bit 0 is an answer, bit 1
    /// a change of the configuration.
    pub fn trigger(&mut self, status: u8)
        ensures
            final(self).current_rect == old(self).current_rect,
            final(self).queue_notify == (old(self).queue_notify || status % 2 == 1),
            final(self).config_change == (old(self).config_change || status / 2 % 2 == 1),
    {
        if status % 2 == 1 {
            self.queue_notify = true;
        }
        if status / 2 % 2 == 1 {
            self.config_change = true;
        }
    }

    /// Whether the device has answered since this was last asked.
    pub fn take_notification(&mut self) -> (r: bool)
        ensures
            r == old(self).queue_notify,
            !final(self).queue_notify,
            final(self).current_rect == old(self).current_rect,
            final(self).config_change == old(self).config_change,
    {
        let notified = self.queue_notify;
        self.queue_notify = false;
        notified
    }
}

} // verus!
