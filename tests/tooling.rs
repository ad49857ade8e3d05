use raw_processor::chain::{Attempt, Converter, PreviewTag, Profile};
use raw_processor::tools::{
    command_for, output_accepted, stream_format, stream_temp_path, thumbnail_beside, thumbnail_temp_path,
    StreamFormat,
};

#[test]
fn preview_command_line() {
    let c = command_for(Attempt::Preview(PreviewTag::JpgFromRaw), "in.raf", "out.jpg").unwrap();
    assert_eq!(c.program, "exiftool");
    assert_eq!(c.args, vec!["-b", "-JpgFromRaw", "-w", "out.jpg", "in.raf"]);
}

#[test]
fn stream_command_lines() {
    let c = command_for(Attempt::Stream(Profile::Sony), "in.arw", "o.jpg").unwrap();
    assert_eq!(c.program, "dcraw");
    assert_eq!(c.args, vec!["-c", "-w", "-h", "-q", "0", "-o", "0", "in.arw"]);
    let c = command_for(Attempt::Stream(Profile::FujiXtrans), "in.raf", "o.jpg").unwrap();
    assert_eq!(c.program, "dcraw_emu");
    assert_eq!(c.args, vec!["-M", "-q", "0", "-h", "-f", "-fbdd", "1", "in.raf"]);
    let c = command_for(Attempt::Stream(Profile::GenericTiff), "in.dng", "o.jpg").unwrap();
    assert_eq!(c.args, vec!["-T", "-h", "-q", "0", "in.dng"]);
    let c = command_for(Attempt::Thumbnail(Converter::DcrawEmu), "in.raf", "o.jpg").unwrap();
    assert_eq!(c.program, "dcraw_emu");
    assert_eq!(c.args, vec!["-e", "in.raf"]);
    assert!(command_for(Attempt::Sensor, "in.dng", "o.jpg").is_none());
}

#[test]
fn temporary_paths_derive_from_destination() {
    assert_eq!(stream_format(Profile::GenericTiff), StreamFormat::Tiff);
    assert_eq!(stream_format(Profile::Nikon), StreamFormat::Ppm);
    assert_eq!(stream_temp_path("out/a.jpg", StreamFormat::Ppm), "out/a.jpg.ppm");
    assert_eq!(stream_temp_path("out/a.jpg", StreamFormat::Tiff), "out/a.jpg.tiff");
    assert_eq!(thumbnail_temp_path("x.nef"), "x.nef.temp.jpg");
}

#[test]
fn output_size_threshold() {
    assert!(output_accepted(true, true, 10001));
    assert!(!output_accepted(true, true, 10000));
    assert!(!output_accepted(false, true, 50000));
    assert!(!output_accepted(true, false, 50000));
}

#[test]
fn converter_thumbnail_lies_beside_source() {
    assert_eq!(thumbnail_beside("dir/IMG_1.RAF"), "dir/thumb_IMG_1.jpg");
    assert_eq!(thumbnail_beside("a.b.nef"), "thumb_a.b.jpg");
    assert_eq!(thumbnail_beside("/x/noext"), "/x/thumb_noext.jpg");
}
