//! Options for the external mirroring tool and the exact command line they
//! map to, plus the user-facing settings record.  The flag names must match
//! the tool's interface exactly; that mapping is the contract here.

use vstd::prelude::*;
use crate::adb::opt_str_view;
use crate::text::{spec_trim, dec_digits, trim_str, u64_to_dec, concat_str};

verus! {

/// Options of one mirroring launch; each present option appends one
/// flag/value pair to the command line.
#[derive(Debug, Clone, Copy, PartialEq, Eq, Structural)]
pub struct ScrcpyOptions {
    pub max_size: Option<u32>,
    pub bit_rate: Option<u32>,
    pub max_fps: Option<u32>,
    pub always_on_top: bool,
    pub stay_awake: bool,
    pub turn_screen_off: bool,
}

impl Default for ScrcpyOptions {
    /// The defaults a caller gets when it sets nothing: a 1920-pixel size
    /// cap, 8 megabits per second, 60 frames per second, and keeping the
    /// device awake.
    fn default() -> (r: Self)
        ensures
            r == (ScrcpyOptions {
                max_size: Some(1920u32),
                bit_rate: Some(8000000u32),
                max_fps: Some(60u32),
                always_on_top: false,
                stay_awake: true,
                turn_screen_off: false,
            }),
    {
        ScrcpyOptions {
            max_size: Some(1920),
            bit_rate: Some(8000000),
            max_fps: Some(60),
            always_on_top: false,
            stay_awake: true,
            turn_screen_off: false,
        }
    }
}

/// The exact argument list a launch uses: the device selector when a device
/// is named, then one flag (and value) per set option, in this fixed order.
pub open spec fn spec_scrcpy_args(device: Option<Seq<char>>, o: ScrcpyOptions) -> Seq<Seq<char>> {
    (match device {
        Some(id) => seq!["-s"@, id],
        None => Seq::<Seq<char>>::empty(),
    }) + (match o.max_size {
        Some(v) => seq!["--max-size"@, dec_digits(v as nat)],
        None => Seq::<Seq<char>>::empty(),
    }) + (match o.bit_rate {
        Some(v) => seq!["--video-bit-rate"@, dec_digits(v as nat)],
        None => Seq::<Seq<char>>::empty(),
    }) + (match o.max_fps {
        Some(v) => seq!["--max-fps"@, dec_digits(v as nat)],
        None => Seq::<Seq<char>>::empty(),
    }) + (if o.always_on_top {
        seq!["--always-on-top"@]
    } else {
        Seq::<Seq<char>>::empty()
    }) + (if o.stay_awake {
        seq!["--stay-awake"@]
    } else {
        Seq::<Seq<char>>::empty()
    }) + (if o.turn_screen_off {
        seq!["--turn-screen-off"@]
    } else {
        Seq::<Seq<char>>::empty()
    })
}

/// Builds the argument list for one mirroring launch.
pub fn scrcpy_args(device_id: Option<&str>, options: &ScrcpyOptions) -> (r: Vec<String>)
    ensures
        r.deep_view() == spec_scrcpy_args(opt_str_view(device_id), *options),
{
    let mut args: Vec<String> = Vec::new();
    proof {
        assert(args.deep_view() =~= Seq::<Seq<char>>::empty());
    }
    let ghost s0 = args.deep_view();
    if let Some(id) = device_id {
        args.push(String::from_str("-s"));
        args.push(String::from_str(id));
        proof {
            assert(args.deep_view() =~= seq!["-s"@, id@]);
        }
    }
    let ghost s1 = args.deep_view();
    if let Some(v) = options.max_size {
        args.push(String::from_str("--max-size"));
        args.push(u64_to_dec(v as u64));
        proof {
            assert(args.deep_view() =~= s1 + seq!["--max-size"@, dec_digits(v as nat)]);
        }
    } else {
        proof {
            assert(args.deep_view() =~= s1 + Seq::<Seq<char>>::empty());
        }
    }
    let ghost s2 = args.deep_view();
    if let Some(v) = options.bit_rate {
        args.push(String::from_str("--video-bit-rate"));
        args.push(u64_to_dec(v as u64));
        proof {
            assert(args.deep_view() =~= s2 + seq!["--video-bit-rate"@, dec_digits(v as nat)]);
        }
    } else {
        proof {
            assert(args.deep_view() =~= s2 + Seq::<Seq<char>>::empty());
        }
    }
    let ghost s3 = args.deep_view();
    if let Some(v) = options.max_fps {
        args.push(String::from_str("--max-fps"));
        args.push(u64_to_dec(v as u64));
        proof {
            assert(args.deep_view() =~= s3 + seq!["--max-fps"@, dec_digits(v as nat)]);
        }
    } else {
        proof {
            assert(args.deep_view() =~= s3 + Seq::<Seq<char>>::empty());
        }
    }
    let ghost s4 = args.deep_view();
    if options.always_on_top {
        args.push(String::from_str("--always-on-top"));
        proof {
            assert(args.deep_view() =~= s4 + seq!["--always-on-top"@]);
        }
    } else {
        proof {
            assert(args.deep_view() =~= s4 + Seq::<Seq<char>>::empty());
        }
    }
    let ghost s5 = args.deep_view();
    if options.stay_awake {
        args.push(String::from_str("--stay-awake"));
        proof {
            assert(args.deep_view() =~= s5 + seq!["--stay-awake"@]);
        }
    } else {
        proof {
            assert(args.deep_view() =~= s5 + Seq::<Seq<char>>::empty());
        }
    }
    let ghost s6 = args.deep_view();
    if options.turn_screen_off {
        args.push(String::from_str("--turn-screen-off"));
        proof {
            assert(args.deep_view() =~= s6 + seq!["--turn-screen-off"@]);
        }
    } else {
        proof {
            assert(args.deep_view() =~= s6 + Seq::<Seq<char>>::empty());
        }
    }
    args
}

/// Turns the raw outcome of the mirroring tool's version query into its
/// version text, trimmed, or an error carrying the tool's own words.
pub fn interpret_version_output(success: bool, stdout: &str, stderr: &str) -> (r: Result<
    String,
    String,
>)
    ensures
        success ==> (r matches Ok(v) && v@ == spec_trim(stdout@)),
        !success ==> (r matches Err(e) && e@ == "Scrcpy error: "@ + stderr@),
{
    if success {
        Ok(String::from_str(trim_str(stdout)))
    } else {
        Err(concat_str("Scrcpy error: ", stderr))
    }
}

/// The persisted user settings for mirroring.
#[derive(Debug, Clone, PartialEq, Eq)]
pub struct Settings {
    pub resolution: String,
    pub bitrate: u32,
    pub max_fps: u32,
    pub always_on_top: bool,
    pub stay_awake: bool,
    pub turn_screen_off: bool,
}

impl Default for Settings {
    /// The settings a fresh installation starts with.
    fn default() -> (r: Self)
        ensures
            r.resolution@ == "default"@,
            r.bitrate == 8000000,
            r.max_fps == 60,
            r.always_on_top == false,
            r.stay_awake == true,
            r.turn_screen_off == false,
    {
        Settings {
            resolution: String::from_str("default"),
            bitrate: 8_000_000,
            max_fps: 60,
            always_on_top: false,
            stay_awake: true,
            turn_screen_off: false,
        }
    }
}

} // verus!
