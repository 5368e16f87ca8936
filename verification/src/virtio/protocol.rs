//! Commands and responses of the VirtIO GPU, and their bytes.

use vstd::prelude::*;
use vstd::string::*;

use crate::text::{hexadecimal, push_hexadecimal};
use crate::virtio::bytes::{
    le32,
    le64,
    lemma_le32_reads_back,
    lemma_le64_reads_back,
    push_le32,
    push_le64,
    read_u32,
    read_u64,
    u32_at,
    u64_at,
};

verus! {

/// Index of the control queue.
pub const CONTROL_QUEUE: u16 = 0;

/// Index of the cursor queue.
pub const CURSOR_QUEUE: u16 = 1;

/// Number of the primary scanout.
pub const SCANOUT_ID: u32 = 0;

/// How many scanouts a device reports.
pub const VIRTIO_GPU_MAX_SCANOUTS: usize = 16;

/// Flag of a command: the device is to answer once the command is carried out.
pub const GPU_FLAG_FENCE: u32 = 1;

/// Pixel format: blue, green, red and alpha, one byte each.
pub const B8G8R8A8UNORM: u32 = 1;

/// Bytes of a header.
pub const HEADER_BYTES: usize = 24;

/// Bytes of a scanout.
pub const SCANOUT_BYTES: usize = 24;

/// Bytes of the display information.
pub const DISPLAY_INFO_BYTES: usize = 408;

/// The code of a command or a response.
#[derive(Copy, Clone, Debug, PartialEq, Eq, Structural)]
pub struct VirtioGpuCtrlType(pub u32);

/// Command: what displays are there.
pub const GET_DISPLAY_INFO: u32 = 0x0100;

/// Command: create a resource.
pub const RESOURCE_CREATE2D: u32 = 0x0101;

/// Command: drop a resource.
pub const RESOURCE_UNREF: u32 = 0x0102;

/// Command: show a resource.
pub const SET_SCANOUT: u32 = 0x0103;

/// Command: bring a part of a resource onto the display.
pub const RESOURCE_FLUSH: u32 = 0x0104;

/// Command: copy a part of a resource to the host.
pub const TRANSFER_TO_HOST2D: u32 = 0x0105;

/// Command: give a resource memory.
pub const RESOURCE_ATTACH_BACKING: u32 = 0x0106;

/// Command: take a resource's memory away.
pub const RESOURCE_DETACH_BACKING: u32 = 0x0107;

/// Command: what sets of capabilities are there.
pub const GET_CAPSET_INFO: u32 = 0x0108;

/// Command: read a set of capabilities.
pub const GET_CAPSET: u32 = 0x0109;

/// Command: read the identification of a display.
pub const GET_EDID: u32 = 0x010a;

/// Command: give a resource an identifier.
pub const RESOURCE_ASSIGN_UUID: u32 = 0x010b;

/// Command: create a resource of plain memory.
pub const RESOURCE_CREATE_BLOB: u32 = 0x010c;

/// Command: show a resource of plain memory.
pub const SET_SCANOUT_BLOB: u32 = 0x010d;

/// Command: create a rendering context.
pub const CTX_CREATE: u32 = 0x0200;

/// Command: drop a rendering context.
pub const CTX_DESTROY: u32 = 0x0201;

/// Command: add a resource to a context.
pub const CTX_ATTACH_RESOURCE: u32 = 0x0202;

/// Command: take a resource out of a context.
pub const CTX_DETACH_RESOURCE: u32 = 0x0203;

/// Command: create a resource for rendering.
pub const RESOURCE_CREATE3D: u32 = 0x0204;

/// Command: copy a part of such a resource to the host.
pub const TRANSFER_TO_HOST3D: u32 = 0x0205;

/// Command: copy a part of such a resource from the host.
pub const TRANSFER_FROM_HOST3D: u32 = 0x0206;

/// Command: carry out rendering commands.
pub const SUBMIT3D: u32 = 0x0207;

/// Command: map a resource of plain memory.
pub const RESOURCE_MAP_BLOB: u32 = 0x0208;

/// Command: unmap a resource of plain memory.
pub const RESOURCE_UNMAP_BLOB: u32 = 0x0209;

/// Command: change the cursor.
pub const UPDATE_CURSOR: u32 = 0x0300;

/// Command: move the cursor.
pub const MOVE_CURSOR: u32 = 0x0301;

/// Response: done.
pub const RESP_OK_NODATA: u32 = 0x1100;

/// Response: the display information.
pub const RESP_OK_DISPLAY_INFO: u32 = 0x1101;

/// Response: which set of capabilities it is.
pub const RESP_OK_CAPSET_INFO: u32 = 0x1102;

/// Response: a set of capabilities.
pub const RESP_OK_CAPSET: u32 = 0x1103;

/// Response: the identification of a display.
pub const RESP_OK_EDID: u32 = 0x1104;

/// Response: the identifier of a resource.
pub const RESP_OK_RESOURCE_UUID: u32 = 0x1105;

/// Response: how a resource was mapped.
pub const RESP_OK_MAP_INFO: u32 = 0x1106;

/// Response: failed.
pub const RESP_ERR_UNSPEC: u32 = 0x1200;

/// Response: no memory is left.
pub const RESP_ERR_OUT_OF_MEMORY: u32 = 0x1201;

/// Response: no such scanout.
pub const RESP_ERR_INVALID_SCANOUT_ID: u32 = 0x1202;

/// Response: no such resource.
pub const RESP_ERR_INVALID_RESOURCE_ID: u32 = 0x1203;

/// Response: no such context.
pub const RESP_ERR_INVALID_CONTEXT_ID: u32 = 0x1204;

/// Response: another parameter is wrong.
pub const RESP_ERR_INVALID_PARAMETER: u32 = 0x1205;

/// The header of commands and responses.
#[derive(Copy, Clone, Debug, PartialEq, Eq, Structural)]
pub struct VirtioGpuCtrlHdr {
    pub type_: u32,
    pub flags: u32,
    pub fence_id: u64,
    pub ctx_id: u32,
    pub ring_idx: u8,
}

/// The message about a response of another type than expected.
pub open spec fn unexpected_text(got: u32, expected: u32) -> Seq<char> {
    "Unexpected response: got 0x"@ + hexadecimal(got as nat) + ", expected 0x"@ + hexadecimal(
        expected as nat,
    )
}

impl VirtioGpuCtrlHdr {
    /// A plain header of this type.
    pub open spec fn of_type(t: u32) -> VirtioGpuCtrlHdr {
        VirtioGpuCtrlHdr { type_: t, flags: 0, fence_id: 0, ctx_id: 0, ring_idx: 0 }
    }

    /// The bytes of a header: it ends with three bytes of padding.
    pub open spec fn bytes(self) -> Seq<u8> {
        le32(self.type_) + le32(self.flags) + le64(self.fence_id) + le32(self.ctx_id) + seq![
            self.ring_idx,
            0u8,
            0u8,
            0u8,
        ]
    }

    /// The header in these bytes.
    pub open spec fn of_bytes(bytes: Seq<u8>) -> VirtioGpuCtrlHdr {
        VirtioGpuCtrlHdr {
            type_: u32_at(bytes, 0),
            flags: u32_at(bytes, 4),
            fence_id: u64_at(bytes, 8),
            ctx_id: u32_at(bytes, 16),
            ring_idx: bytes[20],
        }
    }

    /// A plain header of this type.
    pub fn with_ctrl_type(t: VirtioGpuCtrlType) -> (r: VirtioGpuCtrlHdr)
        ensures
            r == VirtioGpuCtrlHdr::of_type(t.0),
    {
        VirtioGpuCtrlHdr { type_: t.0, flags: 0, fence_id: 0, ctx_id: 0, ring_idx: 0 }
    }

    /// Whether a response is of the expected type.
    pub fn check_ctrl_type(&self, expected: VirtioGpuCtrlType) -> (r: Result<(), String>)
        ensures
            r is Ok <==> self.type_ == expected.0,
            r matches Err(e) ==> e@ == unexpected_text(self.type_, expected.0),
    {
        if self.type_ == expected.0 {
            Ok(())
        } else {
            let mut s = "Unexpected response: got 0x".to_owned();
            push_hexadecimal(&mut s, self.type_ as u64);
            s.push_str(", expected 0x");
            push_hexadecimal(&mut s, expected.0 as u64);
            Err(s)
        }
    }

    /// Append the bytes of the header.
    pub fn encode(&self, out: &mut Vec<u8>)
        ensures
            final(out)@ == old(out)@ + self.bytes(),
    {
        push_le32(out, self.type_);
        push_le32(out, self.flags);
        push_le64(out, self.fence_id);
        push_le32(out, self.ctx_id);
        out.push(self.ring_idx);
        out.push(0);
        out.push(0);
        out.push(0);
        proof {
            assert(out@ =~= old(out)@ + self.bytes());
        }
    }

    /// The header at the start of these bytes.
    pub fn decode(bytes: &Vec<u8>) -> (r: VirtioGpuCtrlHdr)
        requires
            bytes@.len() >= HEADER_BYTES,
        ensures
            r == VirtioGpuCtrlHdr::of_bytes(bytes@),
    {
        VirtioGpuCtrlHdr {
            type_: read_u32(bytes, 0),
            flags: read_u32(bytes, 4),
            fence_id: read_u64(bytes, 8),
            ctx_id: read_u32(bytes, 16),
            ring_idx: bytes[20],
        }
    }
}

/// A rectangle in pixels.
#[derive(Copy, Clone, Debug, PartialEq, Eq, Structural)]
pub struct VirtioGpuRect {
    pub x: u32,
    pub y: u32,
    pub width: u32,
    pub height: u32,
}

impl VirtioGpuRect {
    /// The bytes of a rectangle.
    pub open spec fn bytes(self) -> Seq<u8> {
        le32(self.x) + le32(self.y) + le32(self.width) + le32(self.height)
    }

    /// Append the bytes of the rectangle.
    pub fn encode(&self, out: &mut Vec<u8>)
        ensures
            final(out)@ == old(out)@ + self.bytes(),
    {
        push_le32(out, self.x);
        push_le32(out, self.y);
        push_le32(out, self.width);
        push_le32(out, self.height);
        proof {
            assert(out@ =~= old(out)@ + self.bytes());
        }
    }
}

/// One display: its mode, and whether it is enabled.
#[derive(Copy, Clone, Debug, PartialEq, Eq, Structural)]
pub struct VirtioGpuScanout {
    pub rect: VirtioGpuRect,
    pub enabled: u32,
    pub flags: u32,
}

impl VirtioGpuScanout {
    /// The scanout in the bytes at `at`.
    pub open spec fn of_bytes(bytes: Seq<u8>, at: int) -> VirtioGpuScanout {
        VirtioGpuScanout {
            rect: VirtioGpuRect {
                x: u32_at(bytes, at),
                y: u32_at(bytes, at + 4),
                width: u32_at(bytes, at + 8),
                height: u32_at(bytes, at + 12),
            },
            enabled: u32_at(bytes, at + 16),
            flags: u32_at(bytes, at + 20),
        }
    }
}

/// The response to the question what displays there are.
pub struct VirtioGpuRespDisplayInfo {
    pub hdr: VirtioGpuCtrlHdr,
    pub pmodes: Vec<VirtioGpuScanout>,
}

impl VirtioGpuRespDisplayInfo {
    /// The response in these bytes: a header, then the scanouts.
    pub fn decode(bytes: &Vec<u8>) -> (r: VirtioGpuRespDisplayInfo)
        requires
            bytes@.len() >= DISPLAY_INFO_BYTES,
        ensures
            r.hdr == VirtioGpuCtrlHdr::of_bytes(bytes@),
            r.pmodes@ == Seq::new(
                VIRTIO_GPU_MAX_SCANOUTS as nat,
                |i: int| VirtioGpuScanout::of_bytes(bytes@, 24 + 24 * i),
            ),
    {
        let hdr = VirtioGpuCtrlHdr::decode(bytes);
        let mut pmodes: Vec<VirtioGpuScanout> = Vec::new();
        for i in 0..VIRTIO_GPU_MAX_SCANOUTS
            invariant
                bytes@.len() >= DISPLAY_INFO_BYTES,
                pmodes@.len() == i,
                forall|k: int|
                    0 <= k < i ==> pmodes@[k] == VirtioGpuScanout::of_bytes(bytes@, 24 + 24 * k),
        {
            let at: usize = HEADER_BYTES + SCANOUT_BYTES * i;
            pmodes.push(
                VirtioGpuScanout {
                    rect: VirtioGpuRect {
                        x: read_u32(bytes, at),
                        y: read_u32(bytes, at + 4),
                        width: read_u32(bytes, at + 8),
                        height: read_u32(bytes, at + 12),
                    },
                    enabled: read_u32(bytes, at + 16),
                    flags: read_u32(bytes, at + 20),
                },
            );
        }
        proof {
            assert(pmodes@ =~= Seq::new(
                VIRTIO_GPU_MAX_SCANOUTS as nat,
                |i: int| VirtioGpuScanout::of_bytes(bytes@, 24 + 24 * i),
            ));
        }
        VirtioGpuRespDisplayInfo { hdr, pmodes }
    }
}

/// Command: create a resource of a format and a size.
#[derive(Copy, Clone, Debug, PartialEq, Eq, Structural)]
pub struct VirtioGpuResourceCreate2d {
    pub hdr: VirtioGpuCtrlHdr,
    pub resource_id: u32,
    pub format: u32,
    pub width: u32,
    pub height: u32,
}

impl VirtioGpuResourceCreate2d {
    pub open spec fn bytes(self) -> Seq<u8> {
        self.hdr.bytes() + le32(self.resource_id) + le32(self.format) + le32(self.width) + le32(
            self.height,
        )
    }

    /// The bytes of the command.
    pub fn encode(&self) -> (r: Vec<u8>)
        ensures
            r@ == self.bytes(),
    {
        let mut out: Vec<u8> = Vec::new();
        self.hdr.encode(&mut out);
        push_le32(&mut out, self.resource_id);
        push_le32(&mut out, self.format);
        push_le32(&mut out, self.width);
        push_le32(&mut out, self.height);
        proof {
            assert(out@ =~= self.bytes());
        }
        out
    }
}

/// Command: show a part of a resource on a scanout.
#[derive(Copy, Clone, Debug, PartialEq, Eq, Structural)]
pub struct VirtioGpuSetScanout {
    pub hdr: VirtioGpuCtrlHdr,
    pub r: VirtioGpuRect,
    pub scanout_id: u32,
    pub resource_id: u32,
}

impl VirtioGpuSetScanout {
    pub open spec fn bytes(self) -> Seq<u8> {
        self.hdr.bytes() + self.r.bytes() + le32(self.scanout_id) + le32(self.resource_id)
    }

    /// The bytes of the command.
    pub fn encode(&self) -> (r: Vec<u8>)
        ensures
            r@ == self.bytes(),
    {
        let mut out: Vec<u8> = Vec::new();
        self.hdr.encode(&mut out);
        self.r.encode(&mut out);
        push_le32(&mut out, self.scanout_id);
        push_le32(&mut out, self.resource_id);
        proof {
            assert(out@ =~= self.bytes());
        }
        out
    }
}

/// Command: bring a part of a resource onto the display.
#[derive(Copy, Clone, Debug, PartialEq, Eq, Structural)]
pub struct VirtioGpuResourceFlush {
    pub hdr: VirtioGpuCtrlHdr,
    pub r: VirtioGpuRect,
    pub resource_id: u32,
}

impl VirtioGpuResourceFlush {
    pub open spec fn bytes(self) -> Seq<u8> {
        self.hdr.bytes() + self.r.bytes() + le32(self.resource_id) + le32(0)
    }

    /// The bytes of the command.
    pub fn encode(&self) -> (r: Vec<u8>)
        ensures
            r@ == self.bytes(),
    {
        let mut out: Vec<u8> = Vec::new();
        self.hdr.encode(&mut out);
        self.r.encode(&mut out);
        push_le32(&mut out, self.resource_id);
        push_le32(&mut out, 0);
        proof {
            assert(out@ =~= self.bytes());
        }
        out
    }
}

/// Command: copy a part of a resource to the host.
#[derive(Copy, Clone, Debug, PartialEq, Eq, Structural)]
pub struct VirtioGpuTransferToHost2d {
    pub hdr: VirtioGpuCtrlHdr,
    pub r: VirtioGpuRect,
    pub offset: u64,
    pub resource_id: u32,
}

impl VirtioGpuTransferToHost2d {
    pub open spec fn bytes(self) -> Seq<u8> {
        self.hdr.bytes() + self.r.bytes() + le64(self.offset) + le32(self.resource_id) + le32(0)
    }

    /// The bytes of the command.
    pub fn encode(&self) -> (r: Vec<u8>)
        ensures
            r@ == self.bytes(),
    {
        let mut out: Vec<u8> = Vec::new();
        self.hdr.encode(&mut out);
        self.r.encode(&mut out);
        push_le64(&mut out, self.offset);
        push_le32(&mut out, self.resource_id);
        push_le32(&mut out, 0);
        proof {
            assert(out@ =~= self.bytes());
        }
        out
    }
}

/// Command: give a resource one piece of memory.
#[derive(Copy, Clone, Debug, PartialEq, Eq, Structural)]
pub struct VirtioGpuResourceAttachBacking {
    pub hdr: VirtioGpuCtrlHdr,
    pub resource_id: u32,
    pub nr_entries: u32,
    pub addr: u64,
    pub len: u32,
}

impl VirtioGpuResourceAttachBacking {
    pub open spec fn bytes(self) -> Seq<u8> {
        self.hdr.bytes() + le32(self.resource_id) + le32(self.nr_entries) + le64(self.addr) + le32(
            self.len,
        ) + le32(0)
    }

    /// The bytes of the command.
    pub fn encode(&self) -> (r: Vec<u8>)
        ensures
            r@ == self.bytes(),
    {
        let mut out: Vec<u8> = Vec::new();
        self.hdr.encode(&mut out);
        push_le32(&mut out, self.resource_id);
        push_le32(&mut out, self.nr_entries);
        push_le64(&mut out, self.addr);
        push_le32(&mut out, self.len);
        push_le32(&mut out, 0);
        proof {
            assert(out@ =~= self.bytes());
        }
        out
    }
}

/// A header comes back from its bytes, whatever follows them.
pub proof fn law_header_round_trip(hdr: VirtioGpuCtrlHdr, rest: Seq<u8>)
    ensures
        hdr.bytes().len() == HEADER_BYTES,
        VirtioGpuCtrlHdr::of_bytes(hdr.bytes() + rest) == hdr,
{
    let all = hdr.bytes() + rest;
    assert(all.subrange(0, 4) =~= le32(hdr.type_));
    assert(all.subrange(4, 8) =~= le32(hdr.flags));
    assert(all.subrange(8, 16) =~= le64(hdr.fence_id));
    assert(all.subrange(16, 20) =~= le32(hdr.ctx_id));
    lemma_le32_reads_back(all, 0, hdr.type_);
    lemma_le32_reads_back(all, 4, hdr.flags);
    lemma_le64_reads_back(all, 8, hdr.fence_id);
    lemma_le32_reads_back(all, 16, hdr.ctx_id);
}

/// The commands have the lengths that the device expects.
pub proof fn law_command_lengths(
    create: VirtioGpuResourceCreate2d,
    scanout: VirtioGpuSetScanout,
    flush: VirtioGpuResourceFlush,
    transfer: VirtioGpuTransferToHost2d,
    attach: VirtioGpuResourceAttachBacking,
)
    ensures
        create.bytes().len() == 40,
        scanout.bytes().len() == 48,
        flush.bytes().len() == 48,
        transfer.bytes().len() == 56,
        attach.bytes().len() == 48,
{
}

/// The bytes begin with this header.
pub open spec fn starts_with(bytes: Seq<u8>, hdr: VirtioGpuCtrlHdr) -> bool {
    &&& u32_at(bytes, 0) == hdr.type_
    &&& u32_at(bytes, 4) == hdr.flags
    &&& u64_at(bytes, 8) == hdr.fence_id
    &&& u32_at(bytes, 16) == hdr.ctx_id
    &&& bytes[20] == hdr.ring_idx
    &&& bytes[21] == 0 && bytes[22] == 0 && bytes[23] == 0
}

/// The rectangle stands in the bytes at `at`.
pub open spec fn rect_at(bytes: Seq<u8>, at: int, rect: VirtioGpuRect) -> bool {
    &&& u32_at(bytes, at) == rect.x
    &&& u32_at(bytes, at + 4) == rect.y
    &&& u32_at(bytes, at + 8) == rect.width
    &&& u32_at(bytes, at + 12) == rect.height
}

proof fn lemma_starts_with(hdr: VirtioGpuCtrlHdr, rest: Seq<u8>)
    ensures
        starts_with(hdr.bytes() + rest, hdr),
        hdr.bytes().len() == 24,
{
    law_header_round_trip(hdr, rest);
}

proof fn lemma_word_at(bytes: Seq<u8>, before: Seq<u8>, x: u32, rest: Seq<u8>)
    requires
        bytes == before + le32(x) + rest,
    ensures
        u32_at(bytes, before.len() as int) == x,
{
    assert(bytes.subrange(before.len() as int, before.len() as int + 4) =~= le32(x));
    lemma_le32_reads_back(bytes, before.len() as int, x);
}

proof fn lemma_long_at(bytes: Seq<u8>, before: Seq<u8>, x: u64, rest: Seq<u8>)
    requires
        bytes == before + le64(x) + rest,
    ensures
        u64_at(bytes, before.len() as int) == x,
{
    assert(bytes.subrange(before.len() as int, before.len() as int + 8) =~= le64(x));
    lemma_le64_reads_back(bytes, before.len() as int, x);
}

proof fn lemma_rect_at(bytes: Seq<u8>, before: Seq<u8>, rect: VirtioGpuRect, rest: Seq<u8>)
    requires
        bytes == before + rect.bytes() + rest,
    ensures
        rect_at(bytes, before.len() as int, rect),
{
    let (x, y) = (le32(rect.x), le32(rect.y));
    let (w, h) = (le32(rect.width), le32(rect.height));
    assert(bytes =~= before + x + (y + w + h + rest));
    assert(bytes =~= (before + x) + y + (w + h + rest));
    assert(bytes =~= (before + x + y) + w + (h + rest));
    assert(bytes =~= (before + x + y + w) + h + rest);
    lemma_word_at(bytes, before, rect.x, y + w + h + rest);
    lemma_word_at(bytes, before + x, rect.y, w + h + rest);
    lemma_word_at(bytes, before + x + y, rect.width, h + rest);
    lemma_word_at(bytes, before + x + y + w, rect.height, rest);
}

/// Behind `before` stand two numbers of four bytes.
proof fn lemma_two_words(before: Seq<u8>, x: u32, y: u32)
    ensures
        u32_at(before + le32(x) + le32(y), before.len() as int) == x,
        u32_at(before + le32(x) + le32(y), before.len() as int + 4) == y,
{
    let b = before + le32(x) + le32(y);
    lemma_word_at(b, before, x, le32(y));
    assert(b =~= (before + le32(x)) + le32(y) + Seq::empty());
    lemma_word_at(b, before + le32(x), y, Seq::empty());
}

/// What stands in front is the same whatever follows.
proof fn lemma_front(b: Seq<u8>, hdr: VirtioGpuCtrlHdr, rect: VirtioGpuRect, rest: Seq<u8>)
    requires
        b == hdr.bytes() + rect.bytes() + rest,
    ensures
        starts_with(b, hdr),
        rect_at(b, 24, rect),
        (hdr.bytes() + rect.bytes()).len() == 40,
{
    let (h, r) = (hdr.bytes(), rect.bytes());
    lemma_starts_with(hdr, r + rest);
    assert(b =~= h + (r + rest));
    lemma_rect_at(b, h, rect, rest);
}

/// Two numbers of four bytes do not change with what follows them.
proof fn lemma_same_words(front: Seq<u8>, rest: Seq<u8>, at: int)
    requires
        0 <= at,
        at + 8 <= front.len(),
    ensures
        u32_at(front + rest, at) == u32_at(front, at),
        u32_at(front + rest, at + 4) == u32_at(front, at + 4),
{
}

proof fn lemma_regroup(a: Seq<u8>, b: Seq<u8>, c: Seq<u8>, d: Seq<u8>)
    ensures
        a + b + c == a + (b + c),
        a + b + c + d == a + (b + c + d),
{
    assert(a + b + c =~= a + (b + c));
    assert(a + b + c + d =~= a + (b + c + d));
}

/// In the bytes of a command to create a resource, the header comes first, then the
/// resource, the format, the width and the height.
pub proof fn law_create_fields(command: VirtioGpuResourceCreate2d)
    ensures
        ({
            let b = command.bytes();
            &&& starts_with(b, command.hdr)
            &&& u32_at(b, 24) == command.resource_id
            &&& u32_at(b, 28) == command.format
            &&& u32_at(b, 32) == command.width
            &&& u32_at(b, 36) == command.height
        }),
{
    let (b, hdr) = (command.bytes(), command.hdr.bytes());
    let (i, f) = (le32(command.resource_id), le32(command.format));
    let (w, h) = (le32(command.width), le32(command.height));
    lemma_regroup(hdr, i, f, w);
    lemma_regroup(hdr, i + f + w, h, Seq::empty());
    lemma_starts_with(command.hdr, i + f + w + h);
    lemma_regroup(hdr + i + f, w, h, Seq::empty());
    lemma_two_words(hdr, command.resource_id, command.format);
    lemma_two_words(hdr + i + f, command.width, command.height);
    lemma_same_words(hdr + i + f, w + h, 24);
}

/// In the bytes of a command to show a resource, the header comes first, then the
/// rectangle, the scanout and the resource.
pub proof fn law_scanout_fields(command: VirtioGpuSetScanout)
    ensures
        ({
            let b = command.bytes();
            &&& starts_with(b, command.hdr)
            &&& rect_at(b, 24, command.r)
            &&& u32_at(b, 40) == command.scanout_id
            &&& u32_at(b, 44) == command.resource_id
        }),
{
    let (b, hdr, r) = (command.bytes(), command.hdr.bytes(), command.r.bytes());
    let (o, i) = (le32(command.scanout_id), le32(command.resource_id));
    lemma_regroup(hdr + r, o, i, Seq::empty());
    lemma_front(b, command.hdr, command.r, o + i);
    lemma_two_words(hdr + r, command.scanout_id, command.resource_id);
}

/// In the bytes of a command to flush, the header comes first, then the rectangle and the
/// resource.
pub proof fn law_flush_fields(command: VirtioGpuResourceFlush)
    ensures
        ({
            let b = command.bytes();
            &&& starts_with(b, command.hdr)
            &&& rect_at(b, 24, command.r)
            &&& u32_at(b, 40) == command.resource_id
            &&& u32_at(b, 44) == 0
        }),
{
    let (b, hdr, r) = (command.bytes(), command.hdr.bytes(), command.r.bytes());
    let (i, z) = (le32(command.resource_id), le32(0));
    lemma_regroup(hdr + r, i, z, Seq::empty());
    lemma_front(b, command.hdr, command.r, i + z);
    lemma_two_words(hdr + r, command.resource_id, 0);
}

/// In the bytes of a command to transfer, the header comes first, then the rectangle, the
/// offset and the resource.
pub proof fn law_transfer_fields(command: VirtioGpuTransferToHost2d)
    ensures
        ({
            let b = command.bytes();
            &&& starts_with(b, command.hdr)
            &&& rect_at(b, 24, command.r)
            &&& u64_at(b, 40) == command.offset
            &&& u32_at(b, 48) == command.resource_id
            &&& u32_at(b, 52) == 0
        }),
{
    let (b, hdr, r) = (command.bytes(), command.hdr.bytes(), command.r.bytes());
    let (o, i, z) = (le64(command.offset), le32(command.resource_id), le32(0));
    lemma_regroup(hdr + r, o, i, z);
    lemma_front(b, command.hdr, command.r, o + i + z);
    lemma_regroup(hdr + r + o, i, z, Seq::empty());
    lemma_long_at(b, hdr + r, command.offset, i + z);
    lemma_two_words(hdr + r + o, command.resource_id, 0);
}

/// Behind `front` stand a number of eight bytes and two of four.
proof fn lemma_long_and_words(front: Seq<u8>, x: u64, y: u32, z: u32)
    ensures
        ({
            let b = front + (le64(x) + le32(y) + le32(z));
            let at = front.len() as int;
            &&& u64_at(b, at) == x
            &&& u32_at(b, at + 8) == y
            &&& u32_at(b, at + 12) == z
        }),
{
    let b = front + (le64(x) + le32(y) + le32(z));
    lemma_regroup(front, le64(x), le32(y), le32(z));
    lemma_regroup(front + le64(x), le32(y), le32(z), Seq::empty());
    lemma_long_at(b, front, x, le32(y) + le32(z));
    lemma_two_words(front + le64(x), y, z);
}

/// In the bytes of a command to give a resource memory, the header comes first, then the
/// resource, the number of pieces, and the address and the length of the piece.
pub proof fn law_attach_fields(command: VirtioGpuResourceAttachBacking)
    ensures
        ({
            let b = command.bytes();
            &&& starts_with(b, command.hdr)
            &&& u32_at(b, 24) == command.resource_id
            &&& u32_at(b, 28) == command.nr_entries
            &&& u64_at(b, 32) == command.addr
            &&& u32_at(b, 40) == command.len
            &&& u32_at(b, 44) == 0
        }),
{
    lemma_attach_front(command);
    let front = command.hdr.bytes() + le32(command.resource_id) + le32(command.nr_entries);
    lemma_long_and_words(front, command.addr, command.len, 0);
}

proof fn lemma_attach_front(command: VirtioGpuResourceAttachBacking)
    ensures
        ({
            let b = command.bytes();
            let front = command.hdr.bytes() + le32(command.resource_id) + le32(command.nr_entries);
            &&& b == front + (le64(command.addr) + le32(command.len) + le32(0))
            &&& front.len() == 32
            &&& starts_with(b, command.hdr)
            &&& u32_at(b, 24) == command.resource_id
            &&& u32_at(b, 28) == command.nr_entries
        }),
{
    let hdr = command.hdr.bytes();
    let (i, n) = (le32(command.resource_id), le32(command.nr_entries));
    let (a, l, z) = (le64(command.addr), le32(command.len), le32(0));
    let tail = a + l + z;
    lemma_regroup(hdr + i + n, a, l, z);
    lemma_regroup(hdr, i, n, tail);
    lemma_starts_with(command.hdr, i + n + tail);
    lemma_two_words(hdr, command.resource_id, command.nr_entries);
    lemma_same_words(hdr + i + n, tail, 24);
}

/// A display stands in its bytes as its rectangle, whether it is enabled, and its flags.
pub proof fn law_scanout_read(bytes: Seq<u8>, at: int)
    ensures
        ({
            let scanout = VirtioGpuScanout::of_bytes(bytes, at);
            &&& rect_at(bytes, at, scanout.rect)
            &&& scanout.enabled == u32_at(bytes, at + 16)
            &&& scanout.flags == u32_at(bytes, at + 20)
        }),
{
}

/// A header of a type carries this type and nothing else.
pub proof fn law_plain_header(t: u32)
    ensures
        ({
            let hdr = VirtioGpuCtrlHdr::of_type(t);
            &&& hdr.type_ == t
            &&& hdr.flags == 0
            &&& hdr.fence_id == 0
            &&& hdr.ctx_id == 0
            &&& hdr.ring_idx == 0
        }),
{
}

} // verus!
