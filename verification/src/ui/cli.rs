//! The command line of the renderer: width, height, frame rate, samples, MIDI file,
//! MP4 file, PNG file, and whether to clear the work directory at the end.
use vstd::prelude::*;

use crate::text::{
    float_literal, parse_bool, parse_bool_spec, parse_unsigned, parse_unsigned_spec,
};

verus! {

/// The rendering parameters read from the command line.
pub struct Parameters {
    pub width: usize,
    pub height: usize,
    pub samples: u8,
    /// The frame rate as written on the command line, a literal that the program
    /// reads as an `f32`.
    pub framerate: String,
    pub cores: usize,
    /// Relative path from where the executable is called.
    pub midi_file: String,
    pub index_file: String,
    pub mp4_file: String,
    pub png_file: String,
    pub clear_dir: bool,
}

/// Calls `num_cpus::get`. Trusted: the count of CPUs available to the process, which
/// the crate documents as always at least 1; nothing more is stated (it depends on the
/// machine).
#[verifier::external_body]
fn available_cores() -> (r: usize)
    ensures
        r >= 1,
{
    num_cpus::get()
}

/// The numeric and boolean arguments read the way `str::parse` reads them (the frame
/// rate as an `f32`).
pub open spec fn args_readable(args: Seq<String>) -> bool {
    args.len() == 8 ==> {
        &&& parse_unsigned_spec(args[0]@, usize::MAX as int) is Some
        &&& parse_unsigned_spec(args[1]@, usize::MAX as int) is Some
        &&& float_literal(args[2]@)
        &&& parse_unsigned_spec(args[3]@, u8::MAX as int) is Some
        &&& parse_bool_spec(args[7]@) is Some
    }
}

/// The parameters that eight arguments give, with `cores` CPUs.
pub open spec fn built_from(p: Parameters, args: Seq<String>, cores: usize) -> bool {
    &&& p.width as int == parse_unsigned_spec(args[0]@, usize::MAX as int)->0
    &&& p.height as int == parse_unsigned_spec(args[1]@, usize::MAX as int)->0
    &&& p.framerate@ == args[2]@
    &&& p.samples as int == parse_unsigned_spec(args[3]@, u8::MAX as int)->0
    &&& p.midi_file@ == args[4]@
    &&& p.mp4_file@ == args[5]@
    &&& p.png_file@ == args[6]@
    &&& p.clear_dir == parse_bool_spec(args[7]@)->0
    &&& p.cores == cores
    &&& p.index_file@ == "index.txt"@
}

fn read_usize(s: &String) -> (r: usize)
    requires
        parse_unsigned_spec(s@, usize::MAX as int) is Some,
    ensures
        r as int == parse_unsigned_spec(s@, usize::MAX as int)->0,
{
    match parse_unsigned(s.as_str(), usize::MAX as u64) {
        Some(v) => v as usize,
        None => 0,
    }
}

impl Parameters {
    /// Reads the parameters from the arguments (the program name left out), with `cores`
    /// as the CPU count. Exactly eight arguments are accepted.
    pub fn build_with_cores(args: &[String], cores: usize) -> (r: Result<Parameters, &'static str>)
        requires
            args_readable(args@),
        ensures
            match r {
                Ok(p) => args@.len() == 8 && built_from(p, args@, cores),
                Err(e) => args@.len() != 8 && e@ == "The number of arguments is incorrect"@,
            },
    {
        if args.len() != 8 {
            return Err("The number of arguments is incorrect");
        }
        let width = read_usize(&args[0]);
        let height = read_usize(&args[1]);
        let framerate = args[2].clone();
        let samples: u8 = match parse_unsigned(args[3].as_str(), 255) {
            Some(v) => v as u8,
            None => 0,
        };
        let midi_file = args[4].clone();
        let mp4_file = args[5].clone();
        let png_file = args[6].clone();
        let clear_dir = match parse_bool(args[7].as_str()) {
            Some(b) => b,
            None => false,
        };
        let index_file = String::from_str("index.txt");
        Ok(Parameters {
            width,
            height,
            samples,
            framerate,
            cores,
            midi_file,
            index_file,
            mp4_file,
            png_file,
            clear_dir,
        })
    }

    /// Reads the parameters from the arguments (the program name left out); the CPU
    /// count is the number of CPUs available to the process.
    pub fn build(args: &[String]) -> (r: Result<Parameters, &'static str>)
        requires
            args_readable(args@),
        ensures
            match r {
                Ok(p) => args@.len() == 8 && built_from(p, args@, p.cores) && p.cores >= 1,
                Err(e) => args@.len() != 8 && e@ == "The number of arguments is incorrect"@,
            },
    {
        let cores = available_cores();
        Parameters::build_with_cores(args, cores)
    }
}

} // verus!
