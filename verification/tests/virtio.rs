use d3os::virtio::bytes::{push_le32, push_le64, read_u16, read_u32, read_u64};
use d3os::virtio::capabilities::{
    check_list_ends, BarMappings, BarPages, CapabilityError, IsrCfg, NotifyRegion, PciCapability,
    Region, CONFIG_BYTES,
};
use d3os::virtio::demo::{
    frame_sleep, report_due, sort, start_rect, FrameTimes, MAX_SAMPLES, RECT_COUNT, RECT_H, RECT_W,
};
use d3os::virtio::gpu::{
    attach_backing, check_done, create_2d_resource, display_info_command, fetch_display_info,
    flush_resource, get_resolution, set_scanout_rect, setup_queues, transfer_to_host, SetupError,
    VirtioGpu, DEFAULT_RESOURCE_ID, QUEUE_LEN,
};
use d3os::virtio::protocol::{
    VirtioGpuCtrlHdr, VirtioGpuCtrlType, VirtioGpuRect, RESP_OK_DISPLAY_INFO, RESP_OK_NODATA,
};
use d3os::virtio::queue::{
    get_queue_sizes, pages, Buffer, DescriptorFlags, QueueError, UsedRing, UsedRingElement,
    VirtQueueLayout, VirtioQueue,
};
use d3os::virtio::transport::{
    contains_feature, device_features, feature_halves, final_status, finish_init, init,
    is_status_ok, queue_in_used, DeviceType, InitAccess, InitEvent, InitPhase, FAILED,
    VIRTIO_F_EVENT_IDX, VIRTIO_F_VERSION_1,
};

#[test]
fn pages_cover_their_bytes() {
    assert_eq!(pages(0), 0);
    assert_eq!(pages(1), 1);
    assert_eq!(pages(4096), 1);
    assert_eq!(pages(4097), 2);
    assert_eq!(pages(usize::MAX), 1 << 52);
}

#[test]
fn queue_sizes_and_layout() {
    assert_eq!(get_queue_sizes(64), (1024, 134, 518));
    assert_eq!(
        VirtQueueLayout::allocate_layout(64),
        VirtQueueLayout { desc_avail_pages: 1, used_pages: 1, avail_offset: 1024 }
    );
    let layout = VirtQueueLayout::allocate_layout(1024);
    assert_eq!((layout.desc_avail_pages, layout.used_pages), (5, 3));
    assert_eq!(layout.addresses(0x1000, 0x9000), (0x1000, 0x5000, 0x9000));
}

fn queue() -> VirtioQueue<4> {
    match VirtioQueue::<4>::new(false, 256, 3, true) {
        Ok(queue) => queue,
        Err(e) => panic!("{}", e.message()),
    }
}

fn buffer(n: u64) -> Buffer {
    Buffer { address: 0x1000 * n, length: 16 * n as u32 }
}

fn answered(index: u16, ring: Vec<UsedRingElement>) -> UsedRing<4> {
    UsedRing { flags: 0, index, ring, avail_event: 0 }
}

fn used(id: u32, length: u32) -> UsedRingElement {
    UsedRingElement { id, length }
}

#[test]
fn a_new_queue_has_all_descriptors_free() {
    let q = queue();
    let links: Vec<u16> = q.descriptor_backup.iter().map(|d| d.next).collect();
    assert_eq!(links, vec![1, 2, 3, 0]);
    assert_eq!((q.used_count, q.free_descriptor_head, q.queue_index), (0, 0, 3));
    assert!(matches!(VirtioQueue::<4>::new(true, 4, 0, false), Err(QueueError::InUse)));
    assert!(matches!(VirtioQueue::<4>::new(false, 3, 0, false), Err(QueueError::Unsupported)));
    assert!(VirtioQueue::<4>::new(false, 4, 0, false).is_ok());
}

#[test]
fn buffers_are_offered_in_chains() {
    let mut q = queue();
    let head = q.add(&vec![buffer(1)], &vec![buffer(2), buffer(3)]);
    assert_eq!(head, Ok(0));
    let table = &q.descriptors;
    assert_eq!((table[0].address, table[0].length, table[0].next), (0x1000, 16, 1));
    assert_eq!(table[0].flags, DescriptorFlags { next: true, write: false });
    assert_eq!(table[1].flags, DescriptorFlags { next: true, write: true });
    assert_eq!(table[2].flags, DescriptorFlags { next: false, write: true });
    assert_eq!((table[0].flags.bits(), table[1].flags.bits(), table[2].flags.bits()), (1, 3, 2));
    assert_eq!((table[0].next(), table[2].next()), (Some(1), None));
    assert_eq!((q.used_count, q.free_descriptor_head), (3, 3));
    assert_eq!((q.available.ring[0], q.available.index), (0, 1));
    assert_eq!(q.available.flags, 0);
    assert_eq!(
        q.add(&vec![buffer(1)], &vec![buffer(2)]),
        Err(QueueError::Insufficient { need: 2, have: 1 })
    );
    assert_eq!(q.add(&vec![], &vec![]), Err(QueueError::NoBuffers));
}

#[test]
fn answers_give_descriptors_back() {
    let mut q = queue();
    let inputs = vec![buffer(1)];
    let outputs = vec![buffer(2)];
    assert_eq!(q.submit(&inputs, &outputs), Ok((0, 3)));
    let nothing = answered(0, vec![used(0, 0); 4]);
    assert!(!q.can_pop(&nothing));
    assert_eq!(q.receive_answer(0, &inputs, &outputs, &nothing), Err(QueueError::NoResponse));
    assert_eq!(q.pop_used(0, &inputs, &outputs, &nothing), Err(QueueError::Empty));
    let other = answered(1, vec![used(2, 5), used(0, 0), used(0, 0), used(0, 0)]);
    assert_eq!(
        q.receive_answer(0, &inputs, &outputs, &other),
        Err(QueueError::Mismatched { expected: 0, got: 2 })
    );
    assert_eq!(q.used_count, 2);
    let mine = answered(1, vec![used(0, 24), used(0, 0), used(0, 0), used(0, 0)]);
    assert!(q.can_pop(&mine));
    assert_eq!(q.receive_answer(0, &inputs, &outputs, &mine), Ok(24));
    assert_eq!((q.used_count, q.free_descriptor_head, q.last_used_ring_index), (0, 0, 1));
    assert_eq!(q.available.used_event, 1);
    assert_eq!(q.available.flags, 0);
    assert_eq!(q.descriptors[0].address, 0);
    assert_eq!(q.descriptor_backup[1].next, 2);
}

#[test]
fn chains_come_back_in_any_order() {
    let mut q = queue();
    let one = vec![buffer(1)];
    let two = vec![buffer(2)];
    assert_eq!(q.add(&one, &vec![]), Ok(0));
    assert_eq!(q.add(&two, &vec![buffer(3)]), Ok(1));
    q.recycle_descriptors(0, &one, &vec![]);
    assert_eq!((q.used_count, q.free_descriptor_head), (2, 0));
    q.recycle_descriptors(1, &two, &vec![buffer(3)]);
    assert_eq!((q.used_count, q.free_descriptor_head), (0, 1));
    assert_eq!(q.add(&vec![buffer(1), buffer(2), buffer(3), buffer(4)], &vec![]), Ok(1));
    assert_eq!(q.used_count, 4);
}

#[test]
fn the_ring_goes_round() {
    let mut q = queue();
    let one = vec![buffer(1)];
    for n in 0..70000u32 {
        let head = q.add(&one, &vec![]).unwrap();
        assert_eq!(q.available.ring[(n % 4) as usize], head);
        let mut ring = vec![used(9, 0); 4];
        ring[(n % 4) as usize] = used(head as u32, n);
        let index = (n + 1) as u16;
        assert_eq!(q.pop_used(head, &one, &vec![], &answered(index, ring)), Ok(n));
    }
}

#[test]
fn queue_errors_have_messages() {
    assert_eq!(QueueError::InUse.message(), "Queue is already in use");
    assert_eq!(QueueError::Unsupported.message(), "Queue size is not supported");
    assert_eq!(QueueError::NoBuffers.message(), "No buffers provided");
    assert_eq!(
        QueueError::Insufficient { need: 12, have: 3 }.message(),
        "Insufficient descriptors: need 12, have 3"
    );
    assert_eq!(QueueError::Empty.message(), "Used ring is empty");
    assert_eq!(QueueError::NoResponse.message(), "No response yet");
    assert_eq!(
        QueueError::Mismatched { expected: 1, got: 20 }.message(),
        "Mismatched token: expected 1, got 20"
    );
}

fn capability(config: &mut Vec<u8>, at: usize, next: u8, kind: u8, bar: u8, offset: u32) {
    config[at..at + 5].copy_from_slice(&[9, next, 16, kind, bar]);
    config[at + 8..at + 12].copy_from_slice(&offset.to_le_bytes());
    config[at + 12..at + 16].copy_from_slice(&0x100u32.to_le_bytes());
}

fn config() -> Vec<u8> {
    let mut config = vec![0u8; CONFIG_BYTES];
    config[6] = 0x10;
    config[0x34] = 0x40;
    capability(&mut config, 0x40, 0x50, 1, 4, 0);
    // Another kind of capability in between.
    config[0x50..0x52].copy_from_slice(&[0x11, 0x60]);
    capability(&mut config, 0x60, 0x80, 2, 4, 0x3000);
    config[0x60 + 16..0x60 + 20].copy_from_slice(&4u32.to_le_bytes());
    capability(&mut config, 0x80, 0x90, 3, 4, 0x1000);
    capability(&mut config, 0x90, 0xb0, 4, 2, 0x2000);
    config[0x92] = 24;
    config[0x90 + 16..0x90 + 20].copy_from_slice(&1u32.to_le_bytes());
    capability(&mut config, 0xb0, 0, 5, 0, 0);
    config
}

#[test]
fn capabilities_are_found() {
    let config = config();
    assert!(check_list_ends(&config));
    let layout = match PciCapability::extract_capabilities(&config) {
        Ok(layout) => layout,
        Err(e) => panic!("{}", e.message()),
    };
    assert_eq!(layout.common, Region { bar: 4, offset: 0 });
    assert_eq!(layout.notify, Region { bar: 4, offset: 0x3000 });
    assert_eq!(layout.notify_off_multiplier, 4);
    assert_eq!(layout.isr, Region { bar: 4, offset: 0x1000 });
    assert_eq!(layout.device, Region { bar: 2, offset: 0x1_0000_2000 });
    let kinds: Vec<u8> = layout.capabilities.iter().map(|c| c.cfg_type).collect();
    assert_eq!(kinds, vec![1, 2, 3, 4, 5]);
    assert_eq!(layout.capabilities[0].length, 0x100);
}

#[test]
fn missing_capabilities_are_reported() {
    let error = |config: &Vec<u8>| match PciCapability::extract_capabilities(config) {
        Ok(_) => panic!("the list was accepted"),
        Err(e) => e,
    };
    let mut none = config();
    none[6] = 0;
    assert_eq!(error(&none), CapabilityError::NoCapabilities);
    let expected = [
        (0x43, CapabilityError::CommonMissing, "Common configuration not found"),
        (0x63, CapabilityError::NotifyMissing, "Notify configuration not found"),
        (0x83, CapabilityError::IsrMissing, "ISR configuration not found"),
        (0x93, CapabilityError::DeviceMissing, "Device configuration not found"),
    ];
    for (at, e, message) in expected {
        let mut config = config();
        config[at] = 7;
        assert_eq!(error(&config), e);
        assert_eq!(e.message(), message);
    }
    assert_eq!(CapabilityError::NoCapabilities.message(), "No capabilities found");
}

#[test]
fn a_list_that_goes_round_is_noticed() {
    let mut config = config();
    config[0xb1] = 0x60;
    assert!(!check_list_ends(&config));
    config[6] = 0;
    assert!(check_list_ends(&config));
}

#[test]
fn registers_are_addressed() {
    assert_eq!(PciCapability::read_irq(11), 43);
    let region = NotifyRegion::new(0x8000);
    assert_eq!(region.notify(3, 4), 0x800c);
    assert_eq!(region.notify(1, 3), 0x8002);
    assert_eq!(IsrCfg::new(0x9000).base_addr(), 0x9000);
}

#[test]
fn a_bar_is_mapped_once() {
    let mut bars = BarMappings::new();
    assert_eq!(bars.lookup(5, 4), None);
    assert_eq!(bars.plan(0xfe00_1000, 4097), Some(BarPages { start: 0xfe00_1000, count: 2 }));
    assert_eq!(bars.plan(0xfe00_1001, 4097), None);
    bars.remember(5, 4, 0xfe00_1000);
    assert_eq!(bars.lookup(5, 4), Some(0xfe00_1000));
    assert_eq!(bars.lookup(5, 3), None);
    assert_eq!(bars.lookup(4, 4), None);
}

#[test]
fn a_device_is_brought_up() {
    let run = |features: u64, status: u8| {
        let mut written: Vec<u8> = Vec::new();
        let (mut phase, mut access) = init(InitPhase::Start, InitEvent::Written);
        loop {
            let event = match access {
                InitAccess::WriteStatus(status) => {
                    written.push(status);
                    InitEvent::Written
                }
                InitAccess::WriteFeatures(features) => {
                    assert_eq!(features, VIRTIO_F_VERSION_1);
                    InitEvent::Written
                }
                InitAccess::ReadFeatures => InitEvent::Features(features),
                InitAccess::ReadStatus => InitEvent::Status(status),
                _ => return (access, written),
            };
            (phase, access) = init(phase, event);
        }
    };
    let both = VIRTIO_F_VERSION_1 | VIRTIO_F_EVENT_IDX;
    assert_eq!(run(both, 11), (InitAccess::Done(VIRTIO_F_VERSION_1), vec![0, 3, 11]));
    assert_eq!(run(VIRTIO_F_EVENT_IDX, 11), (InitAccess::Unsupported, vec![0, 3]));
    assert_eq!(run(both, 3), (InitAccess::NotNegotiated, vec![0, 3, 11, FAILED]));
    assert_eq!(
        init(InitPhase::Reset, InitEvent::Status(0)),
        (InitPhase::Reset, InitAccess::Unexpected)
    );
}

#[test]
fn status_and_features_are_bits() {
    assert_eq!(final_status(), 15);
    assert_eq!(finish_init(15), None);
    assert_eq!(finish_init(11), Some(128));
    assert!(is_status_ok(11, 8) && !is_status_ok(3, 8));
    assert_eq!(device_features(2, 1), 0x1_0000_0002);
    assert_eq!(feature_halves(0x1_0000_0002), (2, 1));
    assert!(contains_feature(0x1_0000_0002, VIRTIO_F_VERSION_1));
    assert!(!contains_feature(2, VIRTIO_F_VERSION_1));
    assert!(queue_in_used(1) && !queue_in_used(0) && !queue_in_used(2));
    assert_eq!((DeviceType::GPU.id(), DeviceType::GPU.name()), (0x1050, "Virtio GPU"));
}

const RECT: VirtioGpuRect = VirtioGpuRect { x: 1, y: 2, width: 3, height: 4 };

#[test]
fn commands_have_their_layout() {
    let create = create_2d_resource(7, 640, 480).encode();
    assert_eq!(create.len(), 40);
    assert_eq!(create[..4], [1, 1, 0, 0]);
    assert_eq!(create[24..], [7, 0, 0, 0, 1, 0, 0, 0, 128, 2, 0, 0, 224, 1, 0, 0]);
    let attach = attach_backing(7, 0x1122334455667788, 9).encode();
    assert_eq!(attach.len(), 48);
    assert_eq!(attach[..2], [6, 1]);
    assert_eq!(attach[24..32], [7, 0, 0, 0, 1, 0, 0, 0]);
    assert_eq!(attach[32..40], [0x88, 0x77, 0x66, 0x55, 0x44, 0x33, 0x22, 0x11]);
    assert_eq!(attach[40..], [9, 0, 0, 0, 0, 0, 0, 0]);
    let scanout = set_scanout_rect(RECT, 0, 7).encode();
    assert_eq!(scanout.len(), 48);
    assert_eq!(scanout[..2], [3, 1]);
    assert_eq!(scanout[24..40], [1, 0, 0, 0, 2, 0, 0, 0, 3, 0, 0, 0, 4, 0, 0, 0]);
    assert_eq!(scanout[40..], [0, 0, 0, 0, 7, 0, 0, 0]);
    let transfer = transfer_to_host(RECT).encode();
    assert_eq!(transfer.len(), 56);
    assert_eq!(transfer[..2], [5, 1]);
    assert_eq!(transfer[40..], [0, 0, 0, 0, 0, 0, 0, 0, 42, 0, 0, 0, 0, 0, 0, 0]);
    let flush = flush_resource(RECT).encode();
    assert_eq!(flush.len(), 48);
    assert_eq!(flush[..2], [4, 1]);
    assert_eq!(flush[40..], [42, 0, 0, 0, 0, 0, 0, 0]);
}

#[test]
fn headers_come_back_from_their_bytes() {
    let hdr = VirtioGpuCtrlHdr {
        type_: 0x01020304,
        flags: 5,
        fence_id: 0x0102030405060708,
        ctx_id: 6,
        ring_idx: 7,
    };
    let mut bytes: Vec<u8> = Vec::new();
    hdr.encode(&mut bytes);
    assert_eq!(bytes.len(), 24);
    assert_eq!(VirtioGpuCtrlHdr::decode(&bytes), hdr);
    let mut command: Vec<u8> = Vec::new();
    display_info_command().encode(&mut command);
    assert_eq!(command[..4], [0, 1, 0, 0]);
}

fn display_info(code: u32) -> Vec<u8> {
    let mut bytes = vec![0u8; 408];
    bytes[..4].copy_from_slice(&code.to_le_bytes());
    bytes[24 + 8..24 + 12].copy_from_slice(&800u32.to_le_bytes());
    bytes[24 + 12..24 + 16].copy_from_slice(&600u32.to_le_bytes());
    bytes[24 + 16] = 1;
    bytes[24 + 15 * 24] = 9;
    bytes
}

#[test]
fn responses_are_checked() {
    let info = fetch_display_info(&display_info(RESP_OK_DISPLAY_INFO)).unwrap();
    assert_eq!(get_resolution(&info), (800, 600));
    assert_eq!(info.pmodes.len(), 16);
    assert_eq!((info.pmodes[0].enabled, info.pmodes[15].rect.x), (1, 9));
    match fetch_display_info(&display_info(0x1200)) {
        Ok(_) => panic!("the response was accepted"),
        Err(e) => assert_eq!(e, "Unexpected response: got 0x1200, expected 0x1101"),
    }
    assert_eq!(check_done(&display_info(RESP_OK_NODATA)), Ok(()));
    assert_eq!(
        check_done(&display_info(0)),
        Err("Unexpected response: got 0x0, expected 0x1100".to_owned())
    );
    let hdr = VirtioGpuCtrlHdr::with_ctrl_type(VirtioGpuCtrlType(0xabc));
    assert_eq!(
        hdr.check_ctrl_type(VirtioGpuCtrlType(0xdef)),
        Err("Unexpected response: got 0xabc, expected 0xdef".to_owned())
    );
}

#[test]
fn the_framebuffer_fits_the_display() {
    let info = fetch_display_info(&display_info(RESP_OK_DISPLAY_INFO)).unwrap();
    let mut gpu = VirtioGpu::new();
    assert!(gpu.flush_framebuffer().is_none());
    let plan = gpu.initialize_framebuffer(&info);
    assert_eq!((plan.size, plan.pages), (1920000, 469));
    assert_eq!(plan.create, create_2d_resource(DEFAULT_RESOURCE_ID, 800, 600));
    let (transfer, flush) = gpu.flush_framebuffer().unwrap();
    assert_eq!((transfer.r.width, flush.r.height), (800, 600));
}

#[test]
fn interrupts_are_remembered() {
    let mut gpu = VirtioGpu::new();
    assert!(!gpu.take_notification());
    gpu.trigger(2);
    assert!(gpu.config_change && !gpu.queue_notify);
    gpu.trigger(1);
    gpu.trigger(0);
    assert!(gpu.take_notification());
    assert!(!gpu.take_notification());
}

#[test]
fn a_gpu_has_two_queues() {
    let control = || VirtioQueue::<QUEUE_LEN>::new(false, 64, 0, false);
    let failed = || VirtioQueue::<QUEUE_LEN>::new(true, 64, 0, false);
    let error = |r: Result<VirtioQueue<QUEUE_LEN>, SetupError>| match r {
        Ok(_) => None,
        Err(e) => Some(e),
    };
    assert_eq!(error(setup_queues(2, control())), None);
    assert_eq!(error(setup_queues(1, control())), None);
    let none = error(setup_queues(0, control())).unwrap();
    assert_eq!(none.message(), "Control queue not initialized");
    let more = error(setup_queues(5, control())).unwrap();
    assert_eq!(more.message(), "Unexpected queue index: 2");
    let refused = error(setup_queues(5, failed())).unwrap();
    assert_eq!(refused.message(), "control queue init failed: \"Queue is already in use\"");
}

#[test]
fn numbers_are_little_endian() {
    let mut bytes: Vec<u8> = Vec::new();
    push_le32(&mut bytes, 0x01020304);
    push_le64(&mut bytes, 0x0a0b0c0d0e0f1011);
    assert_eq!(bytes[..5], [4, 3, 2, 1, 0x11]);
    assert_eq!(read_u16(&bytes, 1), 0x0203);
    assert_eq!(read_u32(&bytes, 0), 0x01020304);
    assert_eq!(read_u64(&bytes, 4), 0x0a0b0c0d0e0f1011);
}

#[test]
fn rectangles_start_on_the_screen() {
    let rect = start_rect(0, 640, 480);
    assert_eq!((rect.x, rect.y, rect.vx, rect.vy, rect.color), (0, 0, 100, 120, 0));
    let rect = start_rect(7, 640, 480);
    assert_eq!((rect.x, rect.y, rect.vx, rect.vy, rect.color), (259, 371, -300, -240, 7));
    let rect = start_rect(23, 640, 480);
    assert_eq!((rect.vx, rect.vy, rect.color), (-400, -400, 3));
    for i in 0..RECT_COUNT {
        let rect = start_rect(i, 100, 50);
        assert!(rect.x + RECT_W < 100 && rect.y + RECT_H < 50);
    }
}

#[test]
fn frame_times_are_summed_up() {
    let mut times = FrameTimes::new();
    assert!(times.stats().is_none());
    for t in [5, 1, 9, 3] {
        times.record(t);
    }
    let stats = times.stats().unwrap();
    assert_eq!((stats.min, stats.max, stats.sum, stats.count), (1, 9, 18, 4));
    assert_eq!(stats.p95, 9);
    for t in 0..MAX_SAMPLES as isize {
        times.record(t);
    }
    let stats = times.stats().unwrap();
    assert_eq!((stats.min, stats.max, stats.p95, stats.count), (0, 999, 950, 1000));
    assert_eq!(sort(&vec![3, -1, 2, 2]), vec![-1, 2, 2, 3]);
}

#[test]
fn frames_are_paced() {
    assert!(report_due(30000, 0) && !report_due(29999, 0));
    assert_eq!(frame_sleep(0), Some(16));
    assert_eq!(frame_sleep(15), Some(1));
    assert_eq!(frame_sleep(16), None);
}
