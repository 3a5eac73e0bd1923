use oxideav_heif::demux::core_pixel_format;
use oxideav_heif::image::core_bridge::PixelFormat;
use oxideav_heif::image::{Chroma, HeifPixelFormat};

#[test]
fn core_pixel_format_promotes_unmapped_layouts() {
    let f = HeifPixelFormat::new(Chroma::Mono, 10, true).unwrap();
    assert_eq!(core_pixel_format(f, true), Some(PixelFormat::Yuva444P10Le));
    let g = HeifPixelFormat::new(Chroma::Yuv420, 8, false).unwrap();
    assert_eq!(core_pixel_format(g, false), Some(PixelFormat::Yuv420P));
    assert_eq!(core_pixel_format(g, true), Some(PixelFormat::YuvJ420P));
}
