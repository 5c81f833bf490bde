//! The decoder and its queues, over a scripted device.
use castr::media::codec::PixelFormat;
use castr::time::{Clock, Duration, Instant};
use castr::v4l2::decoder::{V4l2Decoder, OUTPUT_BUFFER_SIZE, STALL_INPUTS, STALL_POLL_MS};
use castr::v4l2::ops::{
    Dequeue, Dequeued, Event, FormatInfo, Mapping, Ops, OpsError, PlaneInfo, PollResult, Script,
    World,
};
use castr::v4l2::queue::Queue;
use castr::v4l2::sys::{
    v4l2_capability, v4l2_rect, EINVAL, V4L2_BUF_FLAG_LAST, V4L2_BUF_TYPE_VIDEO_CAPTURE_MPLANE,
    V4L2_BUF_TYPE_VIDEO_OUTPUT_MPLANE, V4L2_CAP_DEVICE_CAPS, V4L2_CAP_STREAMING,
    V4L2_CAP_VIDEO_M2M_MPLANE, V4L2_CID_MIN_BUFFERS_FOR_CAPTURE, V4L2_EVENT_EOS,
    V4L2_EVENT_SOURCE_CHANGE, V4L2_EVENT_SRC_CH_RESOLUTION, V4L2_PIX_FMT_H264, V4L2_PIX_FMT_NV12,
};
use std::collections::VecDeque;

/// A device that plays from a script: it records every call as a string and
/// serves the dequeues, events and formats that a test puts in.
struct FakeOps {
    calls: Vec<String>,
    caps: u32,
    output_formats: Vec<u32>,
    capture_formats: Vec<u32>,
    capture_format: FormatInfo,
    output_format: FormatInfo,
    compose: v4l2_rect,
    granted: Option<u32>,
    dequeues: VecDeque<(u32, Dequeue)>,
    events: VecDeque<Event>,
    polls: VecDeque<PollResult>,
    fail_next: Option<&'static str>,
    /// Fails the first call whose record starts so, with this error number.
    fail_errno: Option<(&'static str, i32)>,
    captures_filled: Vec<u8>,
    /// Value served for V4L2_CID_MIN_BUFFERS_FOR_CAPTURE.
    min_capture_buffers: i32,
    /// Virtual clock; only `advance` moves it.
    clock: Instant,
    memory: Vec<Vec<u8>>,
    fds: i32,
}

impl FakeOps {
    fn new() -> Self {
        Self {
            calls: Vec::new(),
            caps: V4L2_CAP_VIDEO_M2M_MPLANE | V4L2_CAP_STREAMING | V4L2_CAP_DEVICE_CAPS,
            output_formats: vec![V4L2_PIX_FMT_H264],
            capture_formats: vec![V4L2_PIX_FMT_NV12],
            capture_format: FormatInfo {
                width: 640,
                height: 368,
                pixelformat: V4L2_PIX_FMT_NV12,
                bytesperline: 640,
                sizeimage: 640 * 368 * 3 / 2,
            },
            output_format: FormatInfo {
                pixelformat: V4L2_PIX_FMT_H264,
                sizeimage: 1 << 20,
                ..Default::default()
            },
            compose: v4l2_rect {
                left: 0,
                top: 0,
                width: 640,
                height: 360,
            },
            granted: None,
            dequeues: VecDeque::new(),
            events: VecDeque::new(),
            polls: VecDeque::new(),
            fail_next: None,
            fail_errno: None,
            captures_filled: Vec::new(),
            min_capture_buffers: 1,
            clock: Clock::start().now(),
            memory: Vec::new(),
            fds: 3,
        }
    }
    /// Move the virtual clock forward.
    fn advance(&mut self, d: Duration) {
        self.clock = self.clock.after(d);
    }
    fn push_dequeue(&mut self, buf_type: u32, d: Dequeued) {
        self.dequeues.push_back((buf_type, Dequeue::Buffer(d)));
    }
    /// Script what the kernel says once the sequence is finished.
    fn push_end_of_sequence(&mut self, buf_type: u32) {
        self.dequeues.push_back((buf_type, Dequeue::EndOfSequence));
    }
    fn push_event(&mut self, e: Event) {
        self.events.push_back(e);
    }
    fn record(&mut self, s: String) -> Result<(), OpsError> {
        let refused = match self.fail_errno {
            Some((prefix, errno)) if s.starts_with(prefix) => Some(errno),
            _ => None,
        };
        self.calls.push(s);
        if let Some(errno) = refused {
            self.fail_errno = None;
            return Err(OpsError {
                errno: Some(errno),
                message: String::from("refused"),
            });
        }
        if let Some(name) = self.fail_next.take() {
            return Err(OpsError {
                errno: None,
                message: name.to_string(),
            });
        }
        Ok(())
    }
}

impl Ops for FakeOps {
    // Ghost: no code runs these two.
    fn script(&self) -> Script {
        unreachable!()
    }
    fn world(&self) -> World {
        unreachable!()
    }
    fn query_cap(&mut self) -> Result<v4l2_capability, OpsError> {
        self.record("query_cap".into())?;
        Ok(v4l2_capability {
            capabilities: self.caps,
            device_caps: self.caps & !V4L2_CAP_DEVICE_CAPS,
        })
    }
    fn enum_fmt(&mut self, buf_type: u32, index: u32) -> Result<Option<u32>, OpsError> {
        self.record(format!("enum_fmt({buf_type},{index})"))?;
        let list = if buf_type == V4L2_BUF_TYPE_VIDEO_OUTPUT_MPLANE {
            &self.output_formats
        } else {
            &self.capture_formats
        };
        Ok(list.get(index as usize).copied())
    }
    fn g_fmt(&mut self, buf_type: u32) -> Result<FormatInfo, OpsError> {
        self.record(format!("g_fmt({buf_type})"))?;
        Ok(if buf_type == V4L2_BUF_TYPE_VIDEO_OUTPUT_MPLANE {
            self.output_format
        } else {
            self.capture_format
        })
    }
    fn s_fmt(&mut self, buf_type: u32, want: &FormatInfo) -> Result<FormatInfo, OpsError> {
        self.record(format!(
            "s_fmt({buf_type},{:#x},{}x{})",
            want.pixelformat, want.width, want.height
        ))?;
        if buf_type == V4L2_BUF_TYPE_VIDEO_OUTPUT_MPLANE {
            self.output_format = *want;
            Ok(self.output_format)
        } else {
            self.capture_format.pixelformat = want.pixelformat;
            Ok(self.capture_format)
        }
    }
    fn reqbufs(&mut self, buf_type: u32, count: u32) -> Result<u32, OpsError> {
        self.record(format!("reqbufs({buf_type},{count})"))?;
        Ok(if count == 0 {
            0
        } else {
            self.granted.unwrap_or(count)
        })
    }
    fn querybuf(&mut self, buf_type: u32, index: u32) -> Result<PlaneInfo, OpsError> {
        self.record(format!("querybuf({buf_type},{index})"))?;
        let len = if buf_type == V4L2_BUF_TYPE_VIDEO_OUTPUT_MPLANE {
            self.output_format.sizeimage
        } else {
            self.capture_format.sizeimage
        };
        Ok(PlaneInfo {
            length: len,
            mem_offset: index * 0x1000,
        })
    }
    fn mmap(&mut self, length: usize, offset: u32) -> Result<Mapping, OpsError> {
        self.record(format!("mmap({length},{offset})"))?;
        let mut m = vec![0u8; length];
        if !self.captures_filled.is_empty() {
            // Fill positionally (not a single repeated byte) so tests that
            // read specific offsets can actually detect a wrong stride/base.
            for (i, b) in m.iter_mut().enumerate() {
                *b = (i % 251) as u8;
            }
        }
        self.memory.push(m);
        Ok(Mapping {
            id: self.memory.len() as u64 - 1,
            len: length,
        })
    }
    fn expbuf(&mut self, buf_type: u32, index: u32) -> Result<i32, OpsError> {
        self.record(format!("expbuf({buf_type},{index})"))?;
        self.fds += 1;
        Ok(self.fds)
    }
    fn qbuf(
        &mut self,
        buf_type: u32,
        index: u32,
        _length: u32,
        bytesused: u32,
        timestamp_us: u64,
    ) -> Result<(), OpsError> {
        self.record(format!(
            "qbuf({buf_type},{index},{bytesused},{timestamp_us})"
        ))
    }
    fn dqbuf(&mut self, buf_type: u32) -> Result<Dequeue, OpsError> {
        self.record(format!("dqbuf({buf_type})"))?;
        if let Some(pos) = self.dequeues.iter().position(|(t, _)| *t == buf_type) {
            return Ok(self.dequeues.remove(pos).unwrap().1);
        }
        Ok(Dequeue::Idle)
    }
    fn streamon(&mut self, buf_type: u32) -> Result<(), OpsError> {
        self.record(format!("streamon({buf_type})"))
    }
    fn streamoff(&mut self, buf_type: u32) -> Result<(), OpsError> {
        self.record(format!("streamoff({buf_type})"))
    }
    fn subscribe(&mut self, event_type: u32) -> Result<(), OpsError> {
        self.record(format!("subscribe({event_type})"))
    }
    fn dqevent(&mut self) -> Result<Option<Event>, OpsError> {
        self.record("dqevent".into())?;
        Ok(self.events.pop_front())
    }
    fn poll(&mut self, timeout_ms: i32) -> Result<PollResult, OpsError> {
        self.record(format!("poll({timeout_ms})"))?;
        Ok(self.polls.pop_front().unwrap_or_default())
    }
    fn g_selection_compose(&mut self, buf_type: u32) -> Result<v4l2_rect, OpsError> {
        self.record(format!("g_selection({buf_type})"))?;
        Ok(self.compose)
    }
    fn g_ctrl(&mut self, id: u32) -> Result<i32, OpsError> {
        self.record(format!("g_ctrl({id:#x})"))?;
        if id == V4L2_CID_MIN_BUFFERS_FOR_CAPTURE {
            Ok(self.min_capture_buffers)
        } else {
            Err(OpsError {
                errno: Some(EINVAL),
                message: String::from("no such control"),
            })
        }
    }
    fn now(&mut self) -> Instant {
        self.clock
    }
    fn load(&mut self, mapping: &Mapping) -> Vec<u8> {
        self.memory[mapping.id as usize].clone()
    }
    fn store(&mut self, mapping: &Mapping, data: &[u8]) {
        self.memory[mapping.id as usize][..data.len()].copy_from_slice(data);
    }
}

const OUT: u32 = V4L2_BUF_TYPE_VIDEO_OUTPUT_MPLANE;
const CAP: u32 = V4L2_BUF_TYPE_VIDEO_CAPTURE_MPLANE;
const KEY: [u8; 9] = [0, 0, 0, 1, 0x67, 0, 0, 1, 0x65];
const DELTA: [u8; 5] = [0, 0, 0, 1, 0x41];

fn src_change() -> Event {
    Event {
        kind: V4L2_EVENT_SOURCE_CHANGE,
        changes: V4L2_EVENT_SRC_CH_RESOLUTION,
    }
}

fn hd() -> FormatInfo {
    FormatInfo {
        width: 1280,
        height: 720,
        pixelformat: V4L2_PIX_FMT_NV12,
        bytesperline: 1280,
        sizeimage: 1280 * 720 * 3 / 2,
    }
}

fn rect(width: u32, height: u32) -> v4l2_rect {
    v4l2_rect {
        left: 0,
        top: 0,
        width,
        height,
    }
}

#[test]
fn startup_streams_both_queues_before_the_first_access_unit() {
    let ops = FakeOps::new();
    let d = V4l2Decoder::with_ops(ops).unwrap();
    let calls = &d.ops.calls;
    assert!(calls.contains(&"query_cap".to_string()));
    assert!(calls.iter().any(|c| c.starts_with("s_fmt(10,")));
    assert!(calls.contains(&format!("subscribe({V4L2_EVENT_SOURCE_CHANGE})")));
    assert!(calls.contains(&format!("subscribe({V4L2_EVENT_EOS})")));
    assert!(calls.contains(&"reqbufs(10,4)".to_string()));
    assert!(calls.contains(&"streamon(10)".to_string()));
    // The M2M pipeline only runs a job when both queues are streaming with
    // buffers queued, so CAPTURE is brought up provisionally at the
    // driver's default size; otherwise the first SOURCE_CHANGE arrives
    // only once the driver's internal input pool has filled.
    assert!(calls.iter().any(|c| c.starts_with("s_fmt(9,")));
    assert!(calls.contains(&"reqbufs(9,6)".to_string()));
    assert_eq!(
        calls.iter().filter(|c| c.starts_with("qbuf(9,")).count(),
        6,
        "all provisional capture buffers queued"
    );
    assert!(calls.contains(&"streamon(9)".to_string()));
    // No SPS has been parsed, so no size is claimed yet.
    assert!(d.frame_size().is_none());
}

#[test]
fn capture_count_honours_the_drivers_minimum() {
    let mut ops = FakeOps::new();
    ops.min_capture_buffers = 8;
    let d = V4l2Decoder::with_ops(ops).unwrap();
    assert!(
        d.ops.calls.contains(&"reqbufs(9,10)".to_string()),
        "MIN_BUFFERS_FOR_CAPTURE + 2: {:?}",
        d.ops.calls
    );
}

#[test]
fn open_fails_without_h264_or_nv12_support() {
    let mut ops = FakeOps::new();
    ops.output_formats = vec![V4L2_PIX_FMT_NV12];
    assert!(V4l2Decoder::with_ops(ops).is_err());
    let mut ops = FakeOps::new();
    ops.capture_formats = vec![];
    assert!(V4l2Decoder::with_ops(ops).is_err());
    let mut ops = FakeOps::new();
    ops.caps = V4L2_CAP_STREAMING;
    assert!(V4l2Decoder::with_ops(ops).is_err());
}

#[test]
fn rejects_non_annex_b_and_oversized_input() {
    let mut d = V4l2Decoder::with_ops(FakeOps::new()).unwrap();
    assert!(d.decode(&[1, 2, 3], 0).is_err());
    let huge = vec![0u8; OUTPUT_BUFFER_SIZE as usize + 1];
    let mut au = KEY.to_vec();
    au.extend_from_slice(&huge);
    assert!(d.decode(&au, 0).is_err());
}

#[test]
fn first_source_change_rebuilds_capture_and_frames_flow() {
    let mut ops = FakeOps::new();
    ops.push_event(src_change());
    let mut d = V4l2Decoder::with_ops(ops).unwrap();
    let before = d.ops.calls.len();
    // Feeding the keyframe queues it, drains the event, rebuilds capture.
    assert!(d.decode(&KEY, 33_000).unwrap().is_none());
    let c: Vec<_> = d.ops.calls[before..].to_vec();
    assert!(c.contains(&"qbuf(10,0,9,33000)".to_string()));
    // The provisional queue is stopped and freed, then rebuilt for the
    // size the driver now reports.
    let pos = |s: &str| {
        c.iter()
            .position(|x| x.starts_with(s))
            .unwrap_or_else(|| panic!("missing {s}: {c:?}"))
    };
    assert!(pos("streamoff(9)") < pos("reqbufs(9,0)"));
    assert!(pos("reqbufs(9,0)") < pos("s_fmt(9,"));
    assert!(c
        .iter()
        .any(|x| x == &format!("s_fmt(9,{:#x},640x368)", V4L2_PIX_FMT_NV12)));
    assert!(c.contains(&"reqbufs(9,6)".to_string()));
    assert!(c.contains(&"streamon(9)".to_string()));
    assert_eq!(
        c.iter().filter(|x| x.starts_with("qbuf(9,")).count(),
        6,
        "all capture buffers queued"
    );
    assert_eq!(d.frame_size(), Some((640, 360)));
    // A decoded picture appears: NV12, visible size, requeued.
    d.ops.push_dequeue(
        CAP,
        Dequeued {
            index: 2,
            bytesused: 640 * 368 * 3 / 2,
            timestamp_us: 33_000,
            flags: 0,
        },
    );
    let f = d.decode(&DELTA, 66_000).unwrap().expect("frame");
    assert_eq!((f.width, f.height, f.stride), (640, 360, 640));
    assert_eq!(f.format, PixelFormat::Nv12);
    assert_eq!(f.data.len(), 640 * 360 * 3 / 2);
    assert_eq!(f.timestamp_us, 33_000);
    assert!(
        d.ops.calls.iter().any(|x| x.starts_with("qbuf(9,2,")),
        "capture buffer 2 requeued"
    );
}

#[test]
fn capture_copy_crops_to_the_visible_rectangle() {
    let mut ops = FakeOps::new();
    ops.push_event(src_change());
    ops.captures_filled = vec![0x80]; // non-empty triggers FakeOps's positional fill
                                      // A compose rect with non-zero left/top inside the 640x368 coded frame,
                                      // so a wrong uv_base, top/2, or dropped left offset makes this fail.
    ops.compose = v4l2_rect {
        left: 8,
        top: 4,
        width: 624,
        height: 352,
    };
    let mut d = V4l2Decoder::with_ops(ops).unwrap();
    d.decode(&KEY, 0).unwrap();
    d.ops.push_dequeue(
        CAP,
        Dequeued {
            index: 0,
            bytesused: 640 * 368 * 3 / 2,
            timestamp_us: 0,
            flags: 0,
        },
    );
    let f = d.decode(&DELTA, 33_000).unwrap().unwrap();
    let (stride, coded_h) = (640usize, 368usize);
    let (left, top, w, h) = (8usize, 4usize, 624usize, 352usize);
    let byte_at = |o: usize| (o % 251) as u8;
    let mut expected = Vec::with_capacity(w * h * 3 / 2);
    for row in 0..h {
        let o = (top + row) * stride + left;
        expected.extend((0..w).map(|c| byte_at(o + c)));
    }
    let uv_base = stride * coded_h;
    for row in 0..h / 2 {
        let o = uv_base + (top / 2 + row) * stride + left;
        expected.extend((0..w).map(|c| byte_at(o + c)));
    }
    assert_eq!(f.data, expected);
    assert_eq!(f.data.len(), 624 * 352 + 624 * 176);
}

#[test]
fn resolution_change_reallocates_capture() {
    let mut ops = FakeOps::new();
    ops.push_event(src_change());
    let mut d = V4l2Decoder::with_ops(ops).unwrap();
    d.decode(&KEY, 0).unwrap();
    let before = d.ops.calls.len();
    d.ops.capture_format = hd();
    d.ops.compose = rect(1280, 720);
    d.ops.push_event(src_change());
    assert!(d.decode(&KEY, 33_000).unwrap().is_none());
    let after: Vec<_> = d.ops.calls[before..].to_vec();
    let pos = |s: &str| {
        after
            .iter()
            .position(|c| c.starts_with(s))
            .unwrap_or_else(|| panic!("missing {s}: {after:?}"))
    };
    assert!(pos("streamoff(9)") < pos("reqbufs(9,0)"));
    assert!(pos("reqbufs(9,0)") < pos("s_fmt(9,"));
    assert!(pos("s_fmt(9,") < pos("reqbufs(9,6)"));
    assert!(pos("reqbufs(9,6)") < pos("streamon(9)"));
    assert_eq!(d.frame_size(), Some((1280, 720)));
}

#[test]
fn a_resolution_change_drains_to_the_last_buffer_before_stopping_capture() {
    let mut ops = FakeOps::new();
    ops.push_event(src_change());
    let mut d = V4l2Decoder::with_ops(ops).unwrap();
    d.decode(&KEY, 0).unwrap();
    let before = d.ops.calls.len();
    // The driver finishes the old sequence before the new size takes
    // effect: one more 640x360 picture, then an empty buffer flagged LAST.
    d.ops.push_dequeue(
        CAP,
        Dequeued {
            index: 1,
            bytesused: 640 * 368 * 3 / 2,
            timestamp_us: 33_000,
            flags: 0,
        },
    );
    d.ops.push_dequeue(
        CAP,
        Dequeued {
            index: 2,
            bytesused: 0,
            timestamp_us: 0,
            flags: V4L2_BUF_FLAG_LAST,
        },
    );
    d.ops.capture_format = hd();
    d.ops.compose = rect(1280, 720);
    d.ops.push_event(src_change());
    let f = d
        .decode(&KEY, 66_000)
        .unwrap()
        .expect("the old sequence's tail picture is not thrown away");
    assert_eq!((f.width, f.height), (640, 360));
    let after: Vec<_> = d.ops.calls[before..].to_vec();
    let off = after
        .iter()
        .position(|c| c == "streamoff(9)")
        .expect("capture stopped");
    let drained = &after[..off];
    assert!(
        drained.iter().filter(|c| c.as_str() == "dqbuf(9)").count() >= 2,
        "both buffers dequeued before STREAMOFF: {after:?}"
    );
    assert!(
        drained.iter().any(|c| c.starts_with("qbuf(9,1,")),
        "the picture buffer is recycled: {after:?}"
    );
    assert!(
        !drained.iter().any(|c| c.starts_with("qbuf(9,2,")),
        "the LAST buffer is not requeued into a stopping queue: {after:?}"
    );
    assert_eq!(d.frame_size(), Some((1280, 720)));
}

#[test]
fn a_source_change_that_keeps_the_geometry_only_restarts_the_queue() {
    let mut ops = FakeOps::new();
    ops.push_event(src_change());
    let mut d = V4l2Decoder::with_ops(ops).unwrap();
    d.decode(&KEY, 0).unwrap();
    let before = d.ops.calls.len();
    // Same coded size reported again (e.g. a bitstream restart at the same
    // resolution): the buffers stay, the queue is only cycled.
    d.ops.push_dequeue(
        CAP,
        Dequeued {
            index: 0,
            bytesused: 0,
            timestamp_us: 0,
            flags: V4L2_BUF_FLAG_LAST,
        },
    );
    d.ops.push_event(src_change());
    d.decode(&KEY, 33_000).unwrap();
    let after: Vec<_> = d.ops.calls[before..].to_vec();
    assert!(after.contains(&"streamoff(9)".to_string()));
    assert!(after.contains(&"streamon(9)".to_string()));
    assert!(
        !after.iter().any(|c| c.starts_with("reqbufs(9,")),
        "no reallocation for an unchanged format: {after:?}"
    );
    assert_eq!(
        after.iter().filter(|c| c.starts_with("qbuf(9,")).count(),
        6,
        "every buffer is requeued when the queue restarts: {after:?}"
    );
    assert_eq!(d.frame_size(), Some((640, 360)));
}

#[test]
fn poll_frame_hands_back_the_backlog_a_drain_produced() {
    let mut ops = FakeOps::new();
    ops.push_event(src_change());
    let mut d = V4l2Decoder::with_ops(ops).unwrap();
    d.decode(&KEY, 0).unwrap();
    // A source change drains the old sequence, so several pictures can
    // arrive at once. `decode` returns one per call by contract; the rest
    // must be reachable or they are permanent latency.
    for i in 0..4u32 {
        d.ops.push_dequeue(
            CAP,
            Dequeued {
                index: i,
                bytesused: 640 * 368 * 3 / 2,
                timestamp_us: i as u64 * 33_000,
                flags: 0,
            },
        );
    }
    d.ops.push_dequeue(
        CAP,
        Dequeued {
            index: 4,
            bytesused: 0,
            timestamp_us: 0,
            flags: V4L2_BUF_FLAG_LAST,
        },
    );
    d.ops.capture_format = hd();
    d.ops.compose = rect(1280, 720);
    d.ops.push_event(src_change());
    let first = d.decode(&KEY, 33_000).unwrap().expect("one picture");
    assert_eq!(first.timestamp_us, 0);
    let rest: Vec<u64> = std::iter::from_fn(|| d.poll_frame().unwrap())
        .map(|f| f.timestamp_us)
        .collect();
    assert_eq!(rest, vec![33_000, 66_000, 99_000], "in order, then empty");
    assert!(d.poll_frame().unwrap().is_none());
}

#[test]
fn pictures_from_the_provisional_queue_are_dropped_not_returned() {
    let mut ops = FakeOps::new();
    // No SOURCE_CHANGE yet: the capture queue is still at the driver's
    // default geometry, so anything it produces is not this stream's.
    ops.push_dequeue(
        CAP,
        Dequeued {
            index: 3,
            bytesused: 640 * 368 * 3 / 2,
            timestamp_us: 7,
            flags: 0,
        },
    );
    let mut d = V4l2Decoder::with_ops(ops).unwrap();
    let before = d.ops.calls.len();
    assert!(
        d.decode(&KEY, 0).unwrap().is_none(),
        "no picture is claimed"
    );
    assert!(d.frame_size().is_none());
    assert!(
        d.ops.calls[before..]
            .iter()
            .any(|c| c.starts_with("qbuf(9,3,")),
        "the buffer is still recycled: {:?}",
        &d.ops.calls[before..]
    );
}

#[test]
fn a_capture_requeue_refused_with_einval_ends_the_sequence() {
    let mut ops = FakeOps::new();
    ops.push_event(src_change());
    let mut d = V4l2Decoder::with_ops(ops).unwrap();
    d.decode(&KEY, 0).unwrap();
    // The driver hands back a picture but then refuses to take the buffer
    // again: it has already re-formatted the queue for a source change it
    // has not reported yet.
    d.ops.push_dequeue(
        CAP,
        Dequeued {
            index: 1,
            bytesused: 640 * 368 * 3 / 2,
            timestamp_us: 33_000,
            flags: 0,
        },
    );
    d.ops.fail_errno = Some(("qbuf(9,", EINVAL));
    d.ops.capture_format = hd();
    d.ops.compose = rect(1280, 720);
    d.ops.push_event(src_change());
    // No error surfaces, the picture is kept, and the drain finishes at
    // once instead of polling out its whole budget.
    let before = d.ops.calls.len();
    let f = d.decode(&KEY, 66_000).unwrap().expect("picture kept");
    assert_eq!((f.width, f.height), (640, 360));
    assert_eq!(d.frame_size(), Some((1280, 720)), "capture was rebuilt");
    assert_eq!(
        d.ops.calls[before..]
            .iter()
            .filter(|c| c.starts_with("poll("))
            .count(),
        0,
        "EINVAL ends the drain immediately"
    );
}

#[test]
fn an_einval_requeue_outside_a_drain_also_ends_the_sequence() {
    let mut ops = FakeOps::new();
    ops.push_event(src_change());
    let mut d = V4l2Decoder::with_ops(ops).unwrap();
    d.decode(&KEY, 0).unwrap();
    // The same refusal with no source change pending. On the hardware this
    // is where it actually happens (the driver re-formats before it
    // reports the event), so it is end-of-sequence here too, not an error:
    // with no event to follow, the driver goes quiet and the stall rule
    // catches it.
    d.ops.push_dequeue(
        CAP,
        Dequeued {
            index: 1,
            bytesused: 640 * 368 * 3 / 2,
            timestamp_us: 33_000,
            flags: 0,
        },
    );
    d.ops.push_dequeue(
        CAP,
        Dequeued {
            index: 2,
            bytesused: 640 * 368 * 3 / 2,
            timestamp_us: 66_000,
            flags: 0,
        },
    );
    d.ops.fail_errno = Some(("qbuf(9,", EINVAL));
    let f = d.decode(&DELTA, 66_000).unwrap().expect("picture kept");
    assert_eq!(f.timestamp_us, 33_000);
    // The second scripted buffer is not collected: the sequence is over
    // until the queue is restarted.
    assert!(d.poll_frame().unwrap().is_none());
}

#[test]
fn at_most_two_inputs_in_flight_and_polling_dequeues_them() {
    let mut ops = FakeOps::new();
    ops.push_event(src_change());
    // The third input must wait: poll reports writable, and a dequeue is scripted.
    ops.polls.push_back(PollResult {
        writable: true,
        ..Default::default()
    });
    ops.push_dequeue(
        OUT,
        Dequeued {
            index: 0,
            bytesused: 0,
            timestamp_us: 0,
            flags: 0,
        },
    );
    let mut d = V4l2Decoder::with_ops(ops).unwrap();
    d.decode(&KEY, 0).unwrap();
    d.decode(&DELTA, 33_000).unwrap();
    assert_eq!(d.output.in_flight(), 2);
    d.decode(&DELTA, 66_000).unwrap();
    assert_eq!(d.output.in_flight(), 2);
    assert!(d.ops.calls.iter().any(|c| c.starts_with("poll(")));
    assert!(
        d.ops.calls.contains(&"qbuf(10,0,5,66000)".to_string()),
        "slot 0 reused after dequeue"
    );
}

#[test]
fn stalls_only_after_sixty_unanswered_inputs_and_two_idle_seconds() {
    let mut ops = FakeOps::new();
    ops.push_event(src_change());
    // Every wait for a slot immediately "completes" an output buffer.
    for _ in 0..400 {
        ops.polls.push_back(PollResult {
            writable: true,
            ..Default::default()
        });
    }
    let mut d = V4l2Decoder::with_ops(ops).unwrap();
    d.decode(&KEY, 0).unwrap();
    let feed = |d: &mut V4l2Decoder<FakeOps>, i: u32| {
        // Return the buffer the next decode will need, alternating slots 0
        // and 1, so a free slot is always available and the stall can only
        // come from the unanswered-input rule.
        d.ops.push_dequeue(
            OUT,
            Dequeued {
                index: i % 2,
                bytesused: 0,
                timestamp_us: 0,
                flags: 0,
            },
        );
        d.decode(&DELTA, i as u64 * 33_000)
    };
    // A caller catching up after a jitter-buffer burst can push far more
    // than 60 access units in well under two seconds; that is not a stall.
    for i in 1..=STALL_INPUTS * 2 {
        assert!(
            feed(&mut d, i).is_ok(),
            "input {i} within the time budget must not be treated as a stall"
        );
    }
    d.ops
        .advance(Duration::from_millis(STALL_POLL_MS));
    let e = feed(&mut d, STALL_INPUTS * 2 + 1).unwrap_err();
    assert!(
        e.message()
            .contains("access units queued with no picture"),
        "{}", e.message()
    );
}

#[test]
fn a_picture_resets_the_stall_detector() {
    let mut ops = FakeOps::new();
    ops.push_event(src_change());
    for _ in 0..400 {
        ops.polls.push_back(PollResult {
            writable: true,
            ..Default::default()
        });
    }
    let mut d = V4l2Decoder::with_ops(ops).unwrap();
    d.decode(&KEY, 0).unwrap();
    for i in 1..=STALL_INPUTS {
        d.ops.push_dequeue(
            OUT,
            Dequeued {
                index: i % 2,
                bytesused: 0,
                timestamp_us: 0,
                flags: 0,
            },
        );
        d.decode(&DELTA, i as u64 * 33_000).unwrap();
    }
    d.ops
        .advance(Duration::from_millis(STALL_POLL_MS));
    // One picture, then the same idle time again: still no stall.
    d.ops.push_dequeue(
        CAP,
        Dequeued {
            index: 0,
            bytesused: 640 * 368 * 3 / 2,
            timestamp_us: 0,
            flags: 0,
        },
    );
    d.ops.push_dequeue(
        OUT,
        Dequeued {
            index: 0,
            bytesused: 0,
            timestamp_us: 0,
            flags: 0,
        },
    );
    assert!(d.decode(&DELTA, 1).unwrap().is_some());
    d.ops
        .advance(Duration::from_millis(STALL_POLL_MS - 1));
    d.ops.push_dequeue(
        OUT,
        Dequeued {
            index: 1,
            bytesused: 0,
            timestamp_us: 0,
            flags: 0,
        },
    );
    assert!(d.decode(&DELTA, 2).is_ok());
}

#[test]
fn polling_gives_up_after_two_seconds_without_progress() {
    let mut ops = FakeOps::new();
    ops.push_event(src_change());
    let mut d = V4l2Decoder::with_ops(ops).unwrap();
    d.decode(&KEY, 0).unwrap();
    d.decode(&DELTA, 1).unwrap();
    let before = d.ops.calls.len();
    // Third input: every poll times out (default PollResult) and nothing dequeues.
    let e = d.decode(&DELTA, 2).unwrap_err();
    assert!(e.message().contains("stalled"), "{}", e.message());
    let polls = d.ops.calls[before..]
        .iter()
        .filter(|c| c.starts_with("poll("))
        .count();
    assert_eq!(polls as u64, STALL_POLL_MS / 200);
}

#[test]
fn a_poll_error_fails_the_decoder_immediately() {
    let mut ops = FakeOps::new();
    ops.push_event(src_change());
    // POLLERR on an M2M device never clears by itself, so one round of it
    // must be fatal rather than counting as "no progress" for 2 seconds.
    ops.polls.push_back(PollResult {
        error: true,
        ..Default::default()
    });
    let mut d = V4l2Decoder::with_ops(ops).unwrap();
    d.decode(&KEY, 0).unwrap();
    d.decode(&DELTA, 1).unwrap();
    let before = d.ops.calls.len();
    let e = d.decode(&DELTA, 2).unwrap_err();
    assert!(e.message().contains("POLLERR"), "{}", e.message());
    assert_eq!(
        d.ops.calls[before..]
            .iter()
            .filter(|c| c.starts_with("poll("))
            .count(),
        1,
        "no further polling after POLLERR"
    );
}

#[test]
fn ioctl_failure_is_reported() {
    let mut ops = FakeOps::new();
    ops.push_event(src_change());
    let mut d = V4l2Decoder::with_ops(ops).unwrap();
    d.ops.fail_next = Some("EIO");
    assert!(d.decode(&KEY, 0).is_err());
}

#[test]
fn drop_stops_both_queues() {
    let mut ops = FakeOps::new();
    ops.push_event(src_change());
    let mut d = V4l2Decoder::with_ops(ops).unwrap();
    d.decode(&KEY, 0).unwrap();
    // Closing hands the device back, with its record.
    let log = d.close().calls;
    assert!(log.contains(&"streamoff(10)".to_string()));
    assert!(log.contains(&"streamoff(9)".to_string()));
}

#[test]
fn bad_capture_geometry_is_reported_and_the_buffer_is_still_requeued() {
    let mut ops = FakeOps::new();
    ops.push_event(src_change());
    // sizeimage smaller than bytesperline * height * 3 / 2: the mapping is
    // too small for the coded geometry the driver itself reported.
    ops.capture_format = FormatInfo {
        width: 640,
        height: 368,
        pixelformat: V4L2_PIX_FMT_NV12,
        bytesperline: 640,
        sizeimage: 640 * 368, // should be 640*368*3/2
    };
    let mut d = V4l2Decoder::with_ops(ops).unwrap();
    d.decode(&KEY, 0).unwrap();
    d.ops.push_dequeue(
        CAP,
        Dequeued {
            index: 0,
            bytesused: 640 * 368 * 3 / 2,
            timestamp_us: 0,
            flags: 0,
        },
    );
    let e = d.decode(&DELTA, 33_000).unwrap_err();
    assert!(e.message().contains("geometry"), "{}", e.message());
    assert!(
        d.ops.calls.iter().any(|c| c.starts_with("qbuf(9,0,")),
        "capture buffer still requeued despite the geometry error"
    );
}

#[test]
fn startup_fails_if_the_driver_grants_too_few_output_buffers() {
    let mut ops = FakeOps::new();
    ops.granted = Some(1);
    let e = V4l2Decoder::with_ops(ops).err().unwrap();
    assert!(e.message().contains("buffer"), "{}", e.message());
}

#[test]
fn allocate_requests_queries_maps_and_exports_each_buffer() {
    let mut ops = FakeOps::new();
    let mut q = Queue::new(OUT);
    q.allocate(&mut ops, 2, true).unwrap();
    assert_eq!(q.buffers.len(), 2);
    assert!(q.buffers.iter().all(|b| b.dmabuf.is_some() && !b.queued));
    assert_eq!(
        ops.calls,
        vec![
            "reqbufs(10,2)",
            "querybuf(10,0)",
            "mmap(1048576,0)",
            "expbuf(10,0)",
            "querybuf(10,1)",
            "mmap(1048576,4096)",
            "expbuf(10,1)",
        ]
    );
}

#[test]
fn allocate_honours_the_count_the_driver_grants() {
    let mut ops = FakeOps::new();
    ops.granted = Some(5);
    let mut q = Queue::new(OUT);
    q.allocate(&mut ops, 2, false).unwrap();
    assert_eq!(q.buffers.len(), 5);
    assert!(q.buffers.iter().all(|b| b.dmabuf.is_none()));
}

#[test]
fn queue_and_dequeue_track_in_flight_and_free_slots() {
    let mut ops = FakeOps::new();
    let mut q = Queue::new(OUT);
    q.allocate(&mut ops, 2, false).unwrap();
    assert_eq!(q.free_slot(), Some(0));
    q.queue(&mut ops, 0, 100, 1_000).unwrap();
    assert_eq!(q.in_flight(), 1);
    assert_eq!(q.free_slot(), Some(1));
    q.queue(&mut ops, 1, 50, 2_000).unwrap();
    assert_eq!(q.free_slot(), None);
    assert!(q.dequeue(&mut ops).unwrap().buffer().is_none());
    ops.push_dequeue(
        OUT,
        Dequeued {
            index: 0,
            bytesused: 0,
            timestamp_us: 1_000,
            flags: 0,
        },
    );
    let d = q.dequeue(&mut ops).unwrap().buffer().unwrap();
    assert_eq!(d.index, 0);
    assert_eq!(q.in_flight(), 1);
    assert_eq!(q.free_slot(), Some(0));
    assert!(ops.calls.contains(&"qbuf(10,0,100,1000)".to_string()));
}

#[test]
fn queueing_an_already_queued_buffer_is_an_error_not_a_kernel_call() {
    let mut ops = FakeOps::new();
    let mut q = Queue::new(OUT);
    q.allocate(&mut ops, 1, false).unwrap();
    q.queue(&mut ops, 0, 1, 0).unwrap();
    let n = ops.calls.len();
    assert!(q.queue(&mut ops, 0, 1, 0).is_err());
    assert_eq!(ops.calls.len(), n);
}

#[test]
fn stream_off_returns_all_buffers_and_release_frees_them() {
    let mut ops = FakeOps::new();
    let mut q = Queue::new(OUT);
    q.allocate(&mut ops, 2, true).unwrap();
    q.stream_on(&mut ops).unwrap();
    q.queue(&mut ops, 0, 1, 0).unwrap();
    q.stream_off(&mut ops).unwrap();
    assert_eq!(q.in_flight(), 0);
    assert!(!q.is_streaming());
    q.release(&mut ops).unwrap();
    assert!(q.buffers.is_empty());
    assert_eq!(ops.calls.last().unwrap(), "reqbufs(10,0)");
}

#[test]
fn release_while_streaming_stops_first() {
    let mut ops = FakeOps::new();
    let mut q = Queue::new(OUT);
    q.allocate(&mut ops, 1, false).unwrap();
    q.stream_on(&mut ops).unwrap();
    q.release(&mut ops).unwrap();
    let tail: Vec<_> = ops.calls.iter().rev().take(2).cloned().collect();
    assert_eq!(tail, vec!["reqbufs(10,0)", "streamoff(10)"]);
}

#[test]
fn fake_records_calls_and_serves_scripted_capture_buffers() {
    let mut f = FakeOps::new();
    assert_eq!(f.reqbufs(V4L2_BUF_TYPE_VIDEO_OUTPUT_MPLANE, 4).unwrap(), 4);
    let m = f.mmap(16, 0).unwrap();
    assert_eq!(m.len(), 16);
    f.qbuf(V4L2_BUF_TYPE_VIDEO_OUTPUT_MPLANE, 1, 16, 5, 1000)
        .unwrap();
    assert_eq!(
        f.calls,
        vec!["reqbufs(10,4)", "mmap(16,0)", "qbuf(10,1,5,1000)"]
    );
    // Nothing scripted: dequeue is EAGAIN -> Idle.
    assert_eq!(
        f.dqbuf(V4L2_BUF_TYPE_VIDEO_OUTPUT_MPLANE).unwrap(),
        Dequeue::Idle
    );
    f.push_dequeue(
        V4L2_BUF_TYPE_VIDEO_OUTPUT_MPLANE,
        Dequeued {
            index: 1,
            bytesused: 0,
            timestamp_us: 1000,
            flags: 0,
        },
    );
    let Dequeue::Buffer(d) = f.dqbuf(V4L2_BUF_TYPE_VIDEO_OUTPUT_MPLANE).unwrap() else {
        panic!("expected a buffer")
    };
    assert_eq!(d.index, 1);
    f.push_end_of_sequence(V4L2_BUF_TYPE_VIDEO_CAPTURE_MPLANE);
    assert_eq!(
        f.dqbuf(V4L2_BUF_TYPE_VIDEO_CAPTURE_MPLANE).unwrap(),
        Dequeue::EndOfSequence
    );
}

#[test]
fn fake_serves_events_and_formats() {
    let mut f = FakeOps::new();
    assert!(f.dqevent().unwrap().is_none());
    f.push_event(Event {
        kind: V4L2_EVENT_SOURCE_CHANGE,
        changes: V4L2_EVENT_SRC_CH_RESOLUTION,
    });
    assert_eq!(f.dqevent().unwrap().unwrap().kind, V4L2_EVENT_SOURCE_CHANGE);
    f.capture_format = FormatInfo {
        width: 640,
        height: 368,
        pixelformat: V4L2_PIX_FMT_NV12,
        bytesperline: 640,
        sizeimage: 640 * 368 * 3 / 2,
    };
    f.compose = v4l2_rect {
        left: 0,
        top: 0,
        width: 640,
        height: 360,
    };
    assert_eq!(
        f.g_fmt(V4L2_BUF_TYPE_VIDEO_CAPTURE_MPLANE).unwrap().height,
        368
    );
    assert_eq!(
        f.g_selection_compose(V4L2_BUF_TYPE_VIDEO_CAPTURE_MPLANE)
            .unwrap()
            .height,
        360
    );
}

#[test]
fn a_sequence_without_an_end_is_waited_for_five_times() {
    let mut ops = FakeOps::new();
    ops.push_event(src_change());
    let mut d = V4l2Decoder::with_ops(ops).unwrap();
    d.decode(&KEY, 0).unwrap();
    let before = d.ops.calls.len();
    d.ops.capture_format = hd();
    d.ops.compose = rect(1280, 720);
    d.ops.push_event(src_change());
    assert!(d.decode(&KEY, 33_000).unwrap().is_none());
    let polls = d.ops.calls[before..]
        .iter()
        .filter(|c| c.starts_with("poll("))
        .count();
    assert_eq!(polls, 5);
    assert_eq!(d.frame_size(), Some((1280, 720)));
}
