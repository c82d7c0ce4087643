//! The command line of the first renderer: width, height, frame rate, samples, MIDI
//! file, output file, and whether to clear the work directory at the end.
use vstd::prelude::*;

use crate::text::{
    float_literal, parse_bool, parse_bool_spec, parse_unsigned, parse_unsigned_spec,
};

verus! {

/// The rendering parameters read from the command line.
pub struct Parameters {
    pub width: usize,
    pub height: usize,
    /// The frame rate as written on the command line, a literal that the program
    /// reads as an `f32`.
    pub framerate: String,
    pub samples: u8,
    /// Relative path from where the executable is called.
    pub midi_file: String,
    /// Relative path from where the executable is called.
    pub output_file: String,
    pub clear_dir: bool,
}

/// The numeric and boolean arguments read the way `str::parse` reads them (the frame
/// rate as an `f32`).
pub open spec fn args_readable(args: Seq<String>) -> bool {
    args.len() == 7 ==> {
        &&& parse_unsigned_spec(args[0]@, usize::MAX as int) is Some
        &&& parse_unsigned_spec(args[1]@, usize::MAX as int) is Some
        &&& float_literal(args[2]@)
        &&& parse_unsigned_spec(args[3]@, u8::MAX as int) is Some
        &&& parse_bool_spec(args[6]@) is Some
    }
}

/// The parameters that seven arguments give.
pub open spec fn built_from(p: Parameters, args: Seq<String>) -> bool {
    &&& p.width as int == parse_unsigned_spec(args[0]@, usize::MAX as int)->0
    &&& p.height as int == parse_unsigned_spec(args[1]@, usize::MAX as int)->0
    &&& p.framerate@ == args[2]@
    &&& p.samples as int == parse_unsigned_spec(args[3]@, u8::MAX as int)->0
    &&& p.midi_file@ == args[4]@
    &&& p.output_file@ == args[5]@
    &&& p.clear_dir == parse_bool_spec(args[6]@)->0
}

fn read_unsigned(s: &String, max: u64) -> (r: u64)
    requires
        parse_unsigned_spec(s@, max as int) is Some,
    ensures
        r as int == parse_unsigned_spec(s@, max as int)->0,
{
    match parse_unsigned(s.as_str(), max) {
        Some(v) => v,
        None => 0,
    }
}

impl Parameters {
    /// Reads the parameters from the arguments (the program name left out). Exactly seven
    /// arguments are accepted.
    pub fn build(args: &[String]) -> (r: Result<Parameters, &'static str>)
        requires
            args_readable(args@),
        ensures
            match r {
                Ok(p) => args@.len() == 7 && built_from(p, args@),
                Err(e) => args@.len() != 7 && e@ == "The number of arguments is incorrect"@,
            },
    {
        if args.len() != 7 {
            return Err("The number of arguments is incorrect");
        }
        let width = read_unsigned(&args[0], usize::MAX as u64) as usize;
        let height = read_unsigned(&args[1], usize::MAX as u64) as usize;
        let framerate = args[2].clone();
        let samples = read_unsigned(&args[3], 255) as u8;
        let midi_file = args[4].clone();
        let output_file = args[5].clone();
        let clear_dir = match parse_bool(args[6].as_str()) {
            Some(b) => b,
            None => false,
        };
        Ok(Parameters { width, height, framerate, samples, midi_file, output_file, clear_dir })
    }
}

} // verus!
