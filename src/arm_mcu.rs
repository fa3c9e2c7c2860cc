//! ARM Cortex-M target settings and the compiler and linker flags they imply.
use vstd::prelude::*;

use crate::text::{
    chars_of, concat_str, copy_string, lemma_views_push, starts_with_chars, starts_with_seq, views,
};

verus! {

/// How floating-point arguments are passed.
#[derive(Debug, Clone, Copy, PartialEq, Eq, Structural)]
pub enum FloatAbi {
    Soft,
    SoftFp,
    Hard,
}

pub open spec fn abi_text(a: FloatAbi) -> Seq<char> {
    match a {
        FloatAbi::Soft => "soft"@,
        FloatAbi::SoftFp => "softfp"@,
        FloatAbi::Hard => "hard"@,
    }
}

impl FloatAbi {
    /// The value of `-mfloat-abi=` for this ABI.
    pub fn as_flag(&self) -> (r: &'static str)
        ensures
            r@ == abi_text(*self),
    {
        match self {
            FloatAbi::Soft => "soft",
            FloatAbi::SoftFp => "softfp",
            FloatAbi::Hard => "hard",
        }
    }
}

/// Settings of a Cortex-M target.
#[derive(Debug, Clone, PartialEq, Eq)]
pub struct ArmMcuConfig {
    pub cpu: String,
    pub thumb: bool,
    /// Empty when there is no FPU.
    pub fpu: String,
    pub float_abi: FloatAbi,
    pub defines: Vec<String>,
}

/// Linker settings.
#[derive(Debug, Clone, PartialEq, Eq)]
pub struct LinkerConfig {
    pub script: String,
    pub generate_map: bool,
    pub map_path: Option<String>,
    pub flags: Vec<String>,
}

/// Flags that both compiling and linking pass for a target.
pub open spec fn target_flags(c: ArmMcuConfig) -> Seq<Seq<char>> {
    seq!["-mcpu="@ + c.cpu@] + (if c.thumb { seq!["-mthumb"@] } else { Seq::empty() }) + (if c.fpu@.len() > 0 {
        seq!["-mfpu="@ + c.fpu@]
    } else {
        Seq::empty()
    }) + seq!["-mfloat-abi="@ + abi_text(c.float_abi)]
}

/// The compiler flags of a target: the target flags, then `-D` for each define.
pub open spec fn compiler_flags_spec(c: ArmMcuConfig) -> Seq<Seq<char>> {
    target_flags(c) + c.defines@.map_values(|d: String| "-D"@ + d@)
}

/// A linker flag as passed through the compiler driver.
pub open spec fn wl_flag(f: Seq<char>) -> Seq<char> {
    if starts_with_seq(f, "-Wl,"@) {
        f
    } else {
        "-Wl,"@ + f
    }
}

/// The linker flags of a target: the target flags, the script, the map file
/// where one is asked for, section garbage collection, then the extra flags.
pub open spec fn linker_flags_spec(c: ArmMcuConfig, l: LinkerConfig) -> Seq<Seq<char>> {
    target_flags(c) + seq!["-T"@ + l.script@] + (match l.map_path {
        Some(m) => if l.generate_map { seq!["-Wl,-Map="@ + m@] } else { Seq::empty() },
        None => Seq::empty(),
    }) + seq!["-Wl,--gc-sections"@] + l.flags@.map_values(|f: String| wl_flag(f@))
}

impl ArmMcuConfig {
    /// A Thumb target with no FPU and the soft-float ABI.
    pub fn new(cpu: &str) -> (r: Self)
        ensures
            r.cpu@ == cpu@,
            r.thumb,
            r.fpu@.len() == 0,
            r.float_abi == FloatAbi::Soft,
            r.defines@.len() == 0,
    {
        ArmMcuConfig {
            cpu: String::from_str(cpu),
            thumb: true,
            fpu: String::new(),
            float_abi: FloatAbi::Soft,
            defines: Vec::new(),
        }
    }

    pub fn with_fpu(self, fpu: &str) -> (r: Self)
        ensures
            r.fpu@ == fpu@,
            r.cpu == self.cpu,
            r.thumb == self.thumb,
            r.float_abi == self.float_abi,
            r.defines == self.defines,
    {
        ArmMcuConfig { fpu: String::from_str(fpu), ..self }
    }

    pub fn with_float_abi(self, abi: FloatAbi) -> (r: Self)
        ensures
            r.float_abi == abi,
            r.cpu == self.cpu,
            r.thumb == self.thumb,
            r.fpu == self.fpu,
            r.defines == self.defines,
    {
        ArmMcuConfig { float_abi: abi, ..self }
    }

    /// This target with one more preprocessor define.
    pub fn with_define(self, define: &str) -> (r: Self)
        ensures
            views(r.defines@) == views(self.defines@).push(define@),
            r.cpu == self.cpu,
            r.thumb == self.thumb,
            r.fpu == self.fpu,
            r.float_abi == self.float_abi,
    {
        let mut c = self;
        let ghost before = c.defines@;
        c.defines.push(String::from_str(define));
        proof {
            lemma_views_push(before, c.defines@.last());
        }
        c
    }

    fn push_target_flags(&self, flags: &mut Vec<String>)
        ensures
            views(final(flags)@) == views(old(flags)@) + target_flags(*self),
    {
        let ghost start = views(flags@);
        let ghost mut expect: Seq<Seq<char>> = seq!["-mcpu="@ + self.cpu@];
        proof {
            reveal_strlit("-mcpu=");
            reveal_strlit("-mthumb");
            reveal_strlit("-mfpu=");
            reveal_strlit("-mfloat-abi=");
        }
        let f = concat_str("-mcpu=", self.cpu.as_str());
        let ghost b = flags@;
        flags.push(f);
        proof { lemma_views_push(b, flags@.last()); }
        if self.thumb {
            let ghost b = flags@;
            flags.push(String::from_str("-mthumb"));
            proof { lemma_views_push(b, flags@.last()); }
        }
        if !self.fpu.as_str().is_empty() {
            let f = concat_str("-mfpu=", self.fpu.as_str());
            let ghost b = flags@;
            flags.push(f);
            proof { lemma_views_push(b, flags@.last()); }
        } else {
            assert(self.fpu@.len() == 0);
        }
        let f = concat_str("-mfloat-abi=", self.float_abi.as_flag());
        let ghost b = flags@;
        flags.push(f);
        proof { lemma_views_push(b, flags@.last()); }
        assert(views(flags@) =~= start + target_flags(*self));
    }

    /// Compiler flags for this target.
    pub fn compiler_flags(&self) -> (r: Vec<String>)
        ensures
            views(r@) == compiler_flags_spec(*self),
    {
        let mut flags: Vec<String> = Vec::new();
        assert(views(flags@) =~= Seq::<Seq<char>>::empty());
        self.push_target_flags(&mut flags);
        let ghost base = views(flags@);
        proof {
            reveal_strlit("-D");
        }
        let mut i: usize = 0;
        while i < self.defines.len()
            invariant
                i <= self.defines.len(),
                base == target_flags(*self),
                views(flags@) == base + self.defines@.subrange(0, i as int).map_values(|d: String| "-D"@ + d@),
            decreases self.defines.len() - i,
        {
            let f = concat_str("-D", self.defines[i].as_str());
            let ghost b = flags@;
            flags.push(f);
            proof {
                lemma_views_push(b, flags@.last());
                assert(self.defines@.subrange(0, i + 1).map_values(|d: String| "-D"@ + d@) =~= self.defines@.subrange(0, i as int).map_values(|d: String| "-D"@ + d@).push("-D"@ + self.defines@[i as int]@));
            }
            i += 1;
        }
        assert(self.defines@.subrange(0, i as int) =~= self.defines@);
        flags
    }

    /// Linker flags for this target and `linker_config`.
    pub fn linker_flags(&self, linker_config: &LinkerConfig) -> (r: Vec<String>)
        ensures
            views(r@) == linker_flags_spec(*self, *linker_config),
    {
        proof {
            reveal_strlit("-T");
            reveal_strlit("-Wl,-Map=");
            reveal_strlit("-Wl,--gc-sections");
            reveal_strlit("-Wl,");
        }
        let mut flags: Vec<String> = Vec::new();
        assert(views(flags@) =~= Seq::<Seq<char>>::empty());
        self.push_target_flags(&mut flags);
        let ghost b = flags@;
        flags.push(concat_str("-T", linker_config.script.as_str()));
        proof { lemma_views_push(b, flags@.last()); }
        if linker_config.generate_map {
            match &linker_config.map_path {
                Some(m) => {
                    let ghost b = flags@;
                    flags.push(concat_str("-Wl,-Map=", m.as_str()));
                    proof { lemma_views_push(b, flags@.last()); }
                },
                None => {},
            }
        }
        let ghost b = flags@;
        flags.push(String::from_str("-Wl,--gc-sections"));
        proof { lemma_views_push(b, flags@.last()); }
        let ghost base = views(flags@);
        assert(base =~= target_flags(*self) + seq!["-T"@ + linker_config.script@] + (match linker_config.map_path {
            Some(m) => if linker_config.generate_map { seq!["-Wl,-Map="@ + m@] } else { Seq::empty() },
            None => Seq::empty(),
        }) + seq!["-Wl,--gc-sections"@]);
        let prefix = chars_of("-Wl,");
        let extra = &linker_config.flags;
        let mut i: usize = 0;
        while i < extra.len()
            invariant
                i <= extra.len(),
                prefix@ == "-Wl,"@,
                views(flags@) == base + extra@.subrange(0, i as int).map_values(|f: String| wl_flag(f@)),
            decreases extra.len() - i,
        {
            let fc = chars_of(extra[i].as_str());
            let f = if starts_with_chars(&fc, &prefix) {
                copy_string(&extra[i])
            } else {
                concat_str("-Wl,", extra[i].as_str())
            };
            let ghost b = flags@;
            flags.push(f);
            proof {
                lemma_views_push(b, flags@.last());
                assert(extra@.subrange(0, i + 1).map_values(|f: String| wl_flag(f@)) =~= extra@.subrange(0, i as int).map_values(|f: String| wl_flag(f@)).push(wl_flag(extra@[i as int]@)));
            }
            i += 1;
        }
        assert(extra@.subrange(0, i as int) =~= extra@);
        flags
    }

    pub fn cortex_m0() -> (r: Self)
        ensures
            r.cpu@ == "cortex-m0"@,
            r.thumb,
            r.fpu@.len() == 0,
            r.float_abi == FloatAbi::Soft,
            r.defines@.len() == 0,
    {
        Self::new("cortex-m0")
    }

    pub fn cortex_m3() -> (r: Self)
        ensures
            r.cpu@ == "cortex-m3"@,
            r.thumb,
            r.fpu@.len() == 0,
            r.float_abi == FloatAbi::Soft,
            r.defines@.len() == 0,
    {
        Self::new("cortex-m3")
    }

    /// Cortex-M4 with its single-precision FPU and the hard-float ABI.
    pub fn cortex_m4() -> (r: Self)
        ensures
            r.cpu@ == "cortex-m4"@,
            r.thumb,
            r.fpu@ == "fpv4-sp-d16"@,
            r.float_abi == FloatAbi::Hard,
            r.defines@.len() == 0,
    {
        Self::new("cortex-m4").with_fpu("fpv4-sp-d16").with_float_abi(FloatAbi::Hard)
    }

    /// Cortex-M7 with its double-precision FPU and the hard-float ABI.
    pub fn cortex_m7() -> (r: Self)
        ensures
            r.cpu@ == "cortex-m7"@,
            r.thumb,
            r.fpu@ == "fpv5-d16"@,
            r.float_abi == FloatAbi::Hard,
            r.defines@.len() == 0,
    {
        Self::new("cortex-m7").with_fpu("fpv5-d16").with_float_abi(FloatAbi::Hard)
    }
}

impl LinkerConfig {
    /// Linking with `script`, no map file and no extra flags.
    pub fn new(script: &str) -> (r: Self)
        ensures
            r.script@ == script@,
            !r.generate_map,
            r.map_path is None,
            r.flags@.len() == 0,
    {
        LinkerConfig { script: String::from_str(script), generate_map: false, map_path: None, flags: Vec::new() }
    }

    /// These settings, also writing a map file to `path`.
    pub fn with_map(self, path: &str) -> (r: Self)
        ensures
            r.generate_map,
            r.map_path matches Some(m) && m@ == path@,
            r.script == self.script,
            r.flags == self.flags,
    {
        LinkerConfig { generate_map: true, map_path: Some(String::from_str(path)), ..self }
    }

    /// These settings with one more linker flag.
    pub fn with_flag(self, flag: &str) -> (r: Self)
        ensures
            views(r.flags@) == views(self.flags@).push(flag@),
            r.script == self.script,
            r.generate_map == self.generate_map,
            r.map_path == self.map_path,
    {
        let mut c = self;
        let ghost before = c.flags@;
        c.flags.push(String::from_str(flag));
        proof {
            lemma_views_push(before, c.flags@.last());
        }
        c
    }
}

/// Checks linker settings against whether their script exists: an error
/// naming the script where it does not.
pub fn validate_linker_config(config: &LinkerConfig, script_exists: bool) -> (r: Result<(), String>)
    ensures
        script_exists ==> r is Ok,
        !script_exists ==> (r matches Err(m) && m@ == "Linker script not found: "@ + config.script@),
{
    if !script_exists {
        return Err(concat_str("Linker script not found: ", config.script.as_str()));
    }
    Ok(())
}

} // verus!
