use pam_linuxcampam::camera::{
    acquire_device_lock, average_frames, decode_v4l2_frame, release_device_lock, retry_open, Camera,
    DeviceLocks, RgbFrame,
};
use pam_linuxcampam::utils::{
    V4L2_PIX_FMT_BGR24, V4L2_PIX_FMT_GREY, V4L2_PIX_FMT_MJPEG, V4L2_PIX_FMT_NV12,
    V4L2_PIX_FMT_RGB24, V4L2_PIX_FMT_UYVY, V4L2_PIX_FMT_Y10, V4L2_PIX_FMT_Y12, V4L2_PIX_FMT_Y16,
    V4L2_PIX_FMT_YUYV,
};
use pam_linuxcampam::IR_EMITTER_PATH;

#[test]
fn test_decode_grey() {
    let data = [10u8, 20, 30, 40];
    let img = decode_v4l2_frame(&data, 2, 2, V4L2_PIX_FMT_GREY, 2).expect("decode failed");
    assert_eq!(img.width(), 2);
    assert_eq!(img.height(), 2);
    assert_eq!(img.get_pixel(0, 0).0, [10, 10, 10]);
    assert_eq!(img.get_pixel(1, 0).0, [20, 20, 20]);
    assert_eq!(img.get_pixel(0, 1).0, [30, 30, 30]);
    assert_eq!(img.get_pixel(1, 1).0, [40, 40, 40]);
}

#[test]
fn test_decode_rgb24() {
    let data = [
        255, 0, 0,    0, 255, 0,
        0, 0, 255,    255, 255, 255,
    ];
    let img = decode_v4l2_frame(&data, 2, 2, V4L2_PIX_FMT_RGB24, 6).expect("decode failed");
    assert_eq!(img.get_pixel(0, 0).0, [255, 0, 0]);
    assert_eq!(img.get_pixel(1, 0).0, [0, 255, 0]);
    assert_eq!(img.get_pixel(0, 1).0, [0, 0, 255]);
    assert_eq!(img.get_pixel(1, 1).0, [255, 255, 255]);
}

#[test]
fn test_decode_bgr24() {
    let data = [
        0, 0, 255,    0, 255, 0,
        255, 0, 0,    255, 255, 255,
    ];
    let img = decode_v4l2_frame(&data, 2, 2, V4L2_PIX_FMT_BGR24, 6).expect("decode failed");
    assert_eq!(img.get_pixel(0, 0).0, [255, 0, 0]);
    assert_eq!(img.get_pixel(1, 0).0, [0, 255, 0]);
    assert_eq!(img.get_pixel(0, 1).0, [0, 0, 255]);
    assert_eq!(img.get_pixel(1, 1).0, [255, 255, 255]);
}

#[test]
fn test_decode_yuyv() {
    let data = [
        128, 128, 128, 128,
        235, 128, 235, 128,
    ];
    let img = decode_v4l2_frame(&data, 2, 2, V4L2_PIX_FMT_YUYV, 4).expect("decode failed");
    assert_eq!(img.width(), 2);
    assert_eq!(img.height(), 2);
    let p0 = img.get_pixel(0, 0).0;
    assert!(p0[0] > 100 && p0[0] < 150);
    assert_eq!(p0[0], p0[1]);
    assert_eq!(p0[1], p0[2]);
}

#[test]
fn test_decode_uyvy() {
    let data = [
        128, 128, 128, 128,
        128, 235, 128, 235,
    ];
    let img = decode_v4l2_frame(&data, 2, 2, V4L2_PIX_FMT_UYVY, 4).expect("decode failed");
    assert_eq!(img.width(), 2);
    assert_eq!(img.height(), 2);
    let p0 = img.get_pixel(0, 0).0;
    assert!(p0[0] > 100 && p0[0] < 150);
}

#[test]
fn test_decode_y16_y12_y10() {
    let data = [
        0x00, 0x80,
        0x00, 0xFF,
        0x00, 0x40,
        0x00, 0x00,
    ];
    let img16 = decode_v4l2_frame(&data, 2, 2, V4L2_PIX_FMT_Y16, 4).expect("decode Y16 failed");
    assert_eq!(img16.get_pixel(0, 0).0, [128, 128, 128]);
    assert_eq!(img16.get_pixel(1, 0).0, [255, 255, 255]);
    assert_eq!(img16.get_pixel(0, 1).0, [64, 64, 64]);
    assert_eq!(img16.get_pixel(1, 1).0, [0, 0, 0]);

    let img12 = decode_v4l2_frame(&data, 2, 2, V4L2_PIX_FMT_Y12, 4).expect("decode Y12 failed");
    assert_eq!(img12.width(), 2);
    let img10 = decode_v4l2_frame(&data, 2, 2, V4L2_PIX_FMT_Y10, 4).expect("decode Y10 failed");
    assert_eq!(img10.width(), 2);
}

#[test]
fn test_decode_nv12() {
    let data = [
        128, 128,
        128, 128,
        128, 128,
    ];
    let img = decode_v4l2_frame(&data, 2, 2, V4L2_PIX_FMT_NV12, 2).expect("decode NV12 failed");
    assert_eq!(img.width(), 2);
    assert_eq!(img.height(), 2);
}

#[test]
fn decode_yuv_exact_values() {
    // Y=128, U=V=128: (298 * 112 + 128) >> 8 = 130 on every channel.
    let data = [128u8, 128, 128, 128, 128, 128, 128, 128];
    let img = decode_v4l2_frame(&data, 2, 2, V4L2_PIX_FMT_YUYV, 4).unwrap();
    assert_eq!(img.get_pixel(1, 1).0, [130, 130, 130]);
    // Y=16, U=128, V=255: red (409 * 127 + 128) >> 8 = 203, green clamps at 0.
    let data = [16u8, 128, 16, 255];
    let img = decode_v4l2_frame(&data, 2, 1, V4L2_PIX_FMT_YUYV, 4).unwrap();
    assert_eq!(img.get_pixel(0, 0).0, [203, 0, 0]);
}

#[test]
fn decode_y12_and_y10_shift_values() {
    let data = [0x00u8, 0x10, 0xFF, 0x03];
    // 0x1000 >> 4 = 256, limited to 255; 0x03FF >> 4 = 63.
    let img12 = decode_v4l2_frame(&data, 2, 1, V4L2_PIX_FMT_Y12, 4).unwrap();
    assert_eq!(img12.get_pixel(0, 0).0, [255, 255, 255]);
    assert_eq!(img12.get_pixel(1, 0).0, [63, 63, 63]);
    // 0x03FF >> 2 = 255.
    let img10 = decode_v4l2_frame(&data, 2, 1, V4L2_PIX_FMT_Y10, 4).unwrap();
    assert_eq!(img10.get_pixel(1, 0).0, [255, 255, 255]);
}

#[test]
fn decode_odd_width_yuyv_leaves_last_column_black() {
    let data = [200u8, 128, 200, 128, 200, 128];
    let img = decode_v4l2_frame(&data, 3, 1, V4L2_PIX_FMT_YUYV, 6).unwrap();
    assert_eq!(img.get_pixel(2, 0).0, [0, 0, 0]);
    assert_ne!(img.get_pixel(0, 0).0, [0, 0, 0]);
}

#[test]
fn decode_padded_grey_rows() {
    // Rows of 2 pixels, 4 bytes apart.
    let data = [1u8, 2, 99, 99, 3, 4, 99, 99];
    let img = decode_v4l2_frame(&data, 2, 2, V4L2_PIX_FMT_GREY, 4).unwrap();
    assert_eq!(img.get_pixel(0, 1).0, [3, 3, 3]);
    assert_eq!(img.get_pixel(1, 1).0, [4, 4, 4]);
    // Too short for padded rows: packed rows are read instead.
    let data = [1u8, 2, 3, 4, 5, 6];
    let img = decode_v4l2_frame(&data, 2, 2, V4L2_PIX_FMT_GREY, 4).unwrap();
    assert_eq!(img.get_pixel(0, 1).0, [3, 3, 3]);
}

#[test]
fn decode_rejects_bad_input() {
    assert!(decode_v4l2_frame(&[1, 2, 3], 0, 2, V4L2_PIX_FMT_GREY, 0).is_none());
    assert!(decode_v4l2_frame(&[1, 2, 3], 2, 2, V4L2_PIX_FMT_GREY, 2).is_none());
    assert!(decode_v4l2_frame(&[1, 2, 3, 4], 2, 2, 0x1234_5678, 2).is_none());
    assert!(decode_v4l2_frame(&[0, 1, 2, 3], 2, 2, V4L2_PIX_FMT_MJPEG, 0).is_none());
}

#[test]
fn average_of_frames_rounds_to_nearest() {
    let a = RgbFrame::from_raw(1, 1, vec![10, 20, 30]).unwrap();
    let b = RgbFrame::from_raw(1, 1, vec![11, 21, 32]).unwrap();
    let other_size = RgbFrame::from_raw(2, 1, vec![0; 6]).unwrap();
    let avg = average_frames(&vec![a, other_size, b]).unwrap();
    assert_eq!(avg.width(), 1);
    assert_eq!(avg.get_pixel(0, 0).0, [11, 21, 31]);
    assert!(average_frames(&Vec::new()).is_none());
}

#[test]
fn average_of_copies_is_the_frame() {
    let f = || RgbFrame::from_raw(2, 1, vec![1, 2, 3, 250, 251, 252]).unwrap();
    let avg = average_frames(&vec![f(), f(), f()]).unwrap();
    assert_eq!(avg.as_raw(), &vec![1, 2, 3, 250, 251, 252]);
}

#[test]
fn frame_from_raw_needs_exact_size() {
    assert!(RgbFrame::from_raw(2, 2, vec![0; 11]).is_none());
    assert!(RgbFrame::from_raw(2, 2, vec![0; 13]).is_none());
    let f = RgbFrame::new(3, 2);
    assert_eq!(f.as_raw().len(), 18);
}

#[test]
fn camera_uses_default_emitter_when_path_empty() {
    let cam = Camera::new("/dev/video9999", false, Some(""), false);
    assert_eq!(cam.ir_emitter_path(), IR_EMITTER_PATH);
    assert_eq!(cam.device_path(), "/dev/video9999");
    assert!(!cam.supports_manual_exposure());
    let cam = Camera::new("/dev/null", true, Some("/bin/false"), true);
    assert_eq!(cam.ir_emitter_path(), "/bin/false");
    assert!(cam.is_ir_camera());
    let cam = Camera::new("/dev/video2", true, None, false);
    assert_eq!(cam.ir_emitter_path(), IR_EMITTER_PATH);
}

#[test]
fn device_lock_is_exclusive() {
    let mut locks = DeviceLocks::new();
    assert!(acquire_device_lock(&mut locks, "/dev/video0"));
    assert!(!acquire_device_lock(&mut locks, "/dev/video0"));
    assert!(acquire_device_lock(&mut locks, "/dev/video1"));
    release_device_lock(&mut locks, "/dev/video0");
    assert!(!locks.is_held("/dev/video0"));
    assert!(locks.is_held("/dev/video1"));
    assert!(acquire_device_lock(&mut locks, "/dev/video0"));
}

#[test]
fn uniform_frames_show_no_face() {
    let same = RgbFrame::from_raw(2, 1, vec![1, 2, 3, 1, 2, 3]).unwrap();
    assert!(same.is_uniform());
    let differs = RgbFrame::from_raw(2, 1, vec![1, 2, 3, 1, 2, 4]).unwrap();
    assert!(!differs.is_uniform());
    assert!(RgbFrame::new(0, 0).is_uniform());
    assert!(RgbFrame::new(3, 2).is_uniform());
}

#[test]
fn rgb24_packed_decodes_to_itself() {
    let data: Vec<u8> = (0u8..18).collect();
    let img = decode_v4l2_frame(&data, 3, 2, V4L2_PIX_FMT_RGB24, 9).unwrap();
    assert_eq!(img.as_raw(), &data);
}

#[test]
fn neutral_chroma_decodes_grey() {
    for y in [0u8, 16, 100, 200, 255] {
        let yuyv = [y, 128, y, 128];
        let img = decode_v4l2_frame(&yuyv, 2, 1, V4L2_PIX_FMT_YUYV, 4).unwrap();
        let p = img.get_pixel(1, 0).0;
        assert_eq!(p[0], p[1]);
        assert_eq!(p[1], p[2]);
        let nv12 = [y, y, y, y, 128, 128];
        let img = decode_v4l2_frame(&nv12, 2, 2, V4L2_PIX_FMT_NV12, 2).unwrap();
        let p = img.get_pixel(0, 1).0;
        assert_eq!(p[0], p[1]);
        assert_eq!(p[1], p[2]);
    }
}

#[test]
fn decode_refuses_empty_unknown_and_short_buffers() {
    let data = [0u8; 12];
    assert!(decode_v4l2_frame(&data, 0, 2, V4L2_PIX_FMT_GREY, 0).is_none());
    assert!(decode_v4l2_frame(&data, 2, 0, V4L2_PIX_FMT_GREY, 2).is_none());
    assert!(decode_v4l2_frame(&data, 2, 2, 0x1234_5678, 2).is_none());
    assert!(decode_v4l2_frame(&data[..11], 2, 2, V4L2_PIX_FMT_RGB24, 6).is_none());
    assert!(decode_v4l2_frame(&data[..7], 2, 2, V4L2_PIX_FMT_YUYV, 4).is_none());
    assert!(decode_v4l2_frame(&data[..3], 2, 2, V4L2_PIX_FMT_GREY, 2).is_none());
    let img = decode_v4l2_frame(&data, 2, 2, V4L2_PIX_FMT_RGB24, 6).unwrap();
    assert_eq!((img.width(), img.height(), img.as_raw().len()), (2, 2, 12));
}

#[test]
fn busy_devices_are_retried_while_attempts_remain() {
    assert!(retry_open(true, 0));
    assert!(retry_open(true, 1));
    assert!(!retry_open(true, 2));
    assert!(!retry_open(false, 0));
}
