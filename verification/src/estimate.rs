//! The integer parts of output estimation: height buckets, calibration keys and the
//! no-upscaling note.
use vstd::prelude::*;
use crate::models::{EncodeSettings, MediaInfo};
use crate::text::{concat2, dec, u64_to_string};

verus! {

/// The reference output height a height belongs to: 360, 480, 576, 720 or 1080.
pub open spec fn height_bucket_spec(h: u32) -> u32 {
    if h <= 400 {
        360
    } else if h <= 520 {
        480
    } else if h <= 640 {
        576
    } else if h <= 900 {
        720
    } else {
        1080
    }
}

/// The reference output height of `h`.
pub fn height_bucket(h: u32) -> (r: u32)
    ensures
        r == height_bucket_spec(h),
{
    if h <= 400 {
        360
    } else if h <= 520 {
        480
    } else if h <= 640 {
        576
    } else if h <= 900 {
        720
    } else {
        1080
    }
}

/// "<encoder>:<preset>:<bucket>": the encoder is "hw" for hardware encodes, else the
/// codec key.
pub open spec fn calibration_key_spec(s: EncodeSettings, out_h: u32) -> Seq<char> {
    let enc = if s.hardware {
        "hw"@
    } else {
        s.codec.key_spec()
    };
    enc + ":"@ + s.effective_preset_spec() + ":"@ + dec(height_bucket_spec(out_h) as nat)
}

/// Calibration key used for stored throughput measurements.
pub fn calibration_key(settings: &EncodeSettings, out_h: u32) -> (r: String)
    ensures
        r@ == calibration_key_spec(*settings, out_h),
{
    let enc = if settings.hardware {
        "hw"
    } else {
        settings.codec.key()
    };
    let preset = settings.effective_preset();
    let bucket = u64_to_string(height_bucket(out_h) as u64);
    let a = concat2(enc, ":");
    let b = concat2(a.as_str(), preset.as_str());
    let c = concat2(b.as_str(), ":");
    concat2(c.as_str(), bucket.as_str())
}

/// The note shown when the source is shorter than the chosen resolution.
pub open spec fn upscale_note_spec(info: MediaInfo, s: EncodeSettings) -> Option<Seq<char>> {
    match (info.video, s.resolution.height_spec()) {
        (Some(v), Some(h)) => if v.height < h {
            Some(
                "Source is "@ + dec(v.height as nat) + "p, output stays "@ + dec(v.height as nat)
                    + "p (no upscaling)"@,
            )
        } else {
            None
        },
        _ => None,
    }
}

/// "Source is Np, output stays Np (no upscaling)" when the source is shorter than the
/// chosen resolution.
pub fn upscale_note(info: &MediaInfo, settings: &EncodeSettings) -> (r: Option<String>)
    ensures
        crate::probe::opt_str(r) == upscale_note_spec(*info, *settings),
{
    match (&info.video, settings.resolution.height()) {
        (Some(v), Some(h)) => if v.height < h {
            let n = u64_to_string(v.height as u64);
            let a = concat2("Source is ", n.as_str());
            let b = concat2(a.as_str(), "p, output stays ");
            let c = concat2(b.as_str(), n.as_str());
            Some(concat2(c.as_str(), "p (no upscaling)"))
        } else {
            None
        },
        _ => None,
    }
}

} // verus!
