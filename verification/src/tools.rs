//! Tool-level configuration and helpers: audio file format detection,
//! raw sample formats, global options, analyzer configuration, and
//! progress accounting.  File access and printing stay at the edge; the
//! decisions are made here.

use vstd::prelude::*;
use crate::strutil::{ascii_lower_chars, chars_eq, spec_ascii_lower_seq, str_chars};

verus! {

/// Audio file format detection and handling
#[derive(Debug, Clone, Copy, PartialEq, Eq, Structural)]
pub enum AudioFormat {
    Wav,
    Raw,
    Complex,
}

/// The extension of a path: the characters after the last dot of the
/// final component, provided that dot is neither the component's first
/// character nor preceded by a separator.  Scanned from position `i`
/// leftwards.
pub open spec fn spec_ext_from(s: Seq<char>, i: int) -> Option<Seq<char>>
    decreases i,
{
    if i <= 0 {
        None
    } else if s[i - 1] == '/' {
        None
    } else if s[i - 1] == '.' {
        if i - 1 > 0 && s[i - 2] != '/' {
            Some(s.subrange(i, s.len() as int))
        } else {
            None
        }
    } else {
        spec_ext_from(s, i - 1)
    }
}

/// The extension of a path string.
pub open spec fn spec_path_ext(s: Seq<char>) -> Option<Seq<char>> {
    spec_ext_from(s, s.len() as int)
}

/// The format a path maps to: by extension, with raw as the default.
pub open spec fn spec_format_of(s: Seq<char>) -> AudioFormat {
    match spec_path_ext(s) {
        Option::Some(e) => {
            if e == "wav"@ {
                AudioFormat::Wav
            } else if e == "raw"@ {
                AudioFormat::Raw
            } else if e == "iq"@ || e == "complex"@ {
                AudioFormat::Complex
            } else {
                AudioFormat::Raw
            }
        },
        Option::None => AudioFormat::Raw,
    }
}

impl AudioFormat {
    /// Detect format from file extension
    pub fn from_path(path: &str) -> (r: Self)
        ensures
            r == spec_format_of(path@),
    {
        let cs = str_chars(path);
        let n = cs.len();
        let mut i: usize = n;
        let mut ext: Option<Vec<char>> = None;
        loop
            invariant_except_break
                0 <= i <= n,
                n == cs@.len(),
                cs@ == path@,
                spec_path_ext(path@) == spec_ext_from(path@, i as int),
                ext is None,
            ensures
                match ext {
                    Some(e) => spec_path_ext(path@) == Some(e@),
                    None => spec_path_ext(path@) is None,
                },
            decreases i,
        {
            if i == 0 {
                break ;
            }
            let c = cs[i - 1];
            if c == '/' {
                break ;
            }
            if c == '.' {
                if i - 1 > 0 && cs[i - 2] != '/' {
                    let mut e: Vec<char> = Vec::new();
                    let mut j: usize = i;
                    while j < n
                        invariant
                            i <= j <= n,
                            n == cs@.len(),
                            cs@ == path@,
                            e@ =~= path@.subrange(i as int, j as int),
                        decreases n - j,
                    {
                        e.push(cs[j]);
                        j = j + 1;
                        assert(e@ =~= path@.subrange(i as int, j as int));
                    }
                    assert(e@ =~= path@.subrange(i as int, path@.len() as int));
                    ext = Some(e);
                }
                break ;
            }
            i = i - 1;
        }
        match ext {
            Option::Some(e) => {
                if eq_lit(&e, "wav") {
                    AudioFormat::Wav
                } else if eq_lit(&e, "raw") {
                    AudioFormat::Raw
                } else if eq_lit(&e, "iq") || eq_lit(&e, "complex") {
                    AudioFormat::Complex
                } else {
                    AudioFormat::Raw
                }
            },
            Option::None => AudioFormat::Raw,
        }
    }

    /// Get file extension for format
    pub fn extension(&self) -> (r: &'static str)
        ensures
            self is Wav ==> r@ == "wav"@,
            self is Raw ==> r@ == "raw"@,
            self is Complex ==> r@ == "iq"@,
    {
        match self {
            AudioFormat::Wav => "wav",
            AudioFormat::Raw => "raw",
            AudioFormat::Complex => "iq",
        }
    }
}

/// Character-vector equality against a literal.
fn eq_lit(a: &Vec<char>, b: &str) -> (r: bool)
    ensures
        r == (a@ == b@),
{
    let bv = str_chars(b);
    chars_eq(a, &bv)
}

/// Sample format for raw audio files
#[derive(Debug, Clone, Copy, PartialEq, Eq, Structural)]
pub enum SampleFormat {
    F32Le,
    F64Le,
    I16Le,
    I32Le,
}

/// The sample format named by a string, compared in ASCII lowercase.
pub open spec fn spec_sample_format_of(s: Seq<char>) -> Option<SampleFormat> {
    let l = spec_ascii_lower_seq(s);
    if l == "f32"@ || l == "f32le"@ {
        Some(SampleFormat::F32Le)
    } else if l == "f64"@ || l == "f64le"@ {
        Some(SampleFormat::F64Le)
    } else if l == "i16"@ || l == "i16le"@ {
        Some(SampleFormat::I16Le)
    } else if l == "i32"@ || l == "i32le"@ {
        Some(SampleFormat::I32Le)
    } else {
        None
    }
}

impl SampleFormat {
    /// Get bytes per sample
    pub fn bytes_per_sample(&self) -> (r: usize)
        ensures
            self is F32Le ==> r == 4,
            self is F64Le ==> r == 8,
            self is I16Le ==> r == 2,
            self is I32Le ==> r == 4,
    {
        match self {
            SampleFormat::F32Le => 4,
            SampleFormat::F64Le => 8,
            SampleFormat::I16Le => 2,
            SampleFormat::I32Le => 4,
        }
    }

    /// Parse from string
    pub fn from_str(s: &str) -> (r: Result<Self, String>)
        ensures
            match r {
                Ok(f) => spec_sample_format_of(s@) == Some(f),
                Err(_) => spec_sample_format_of(s@) is None,
            },
    {
        let cs = str_chars(s);
        let l = ascii_lower_chars(&cs);
        if eq_lit(&l, "f32") || eq_lit(&l, "f32le") {
            Ok(SampleFormat::F32Le)
        } else if eq_lit(&l, "f64") || eq_lit(&l, "f64le") {
            Ok(SampleFormat::F64Le)
        } else if eq_lit(&l, "i16") || eq_lit(&l, "i16le") {
            Ok(SampleFormat::I16Le)
        } else if eq_lit(&l, "i32") || eq_lit(&l, "i32le") {
            Ok(SampleFormat::I32Le)
        } else {
            Err("unknown sample format".to_owned())
        }
    }
}

/// Global configuration options
#[derive(Debug, Clone)]
pub struct GlobalConfig {
    /// Configuration file path
    pub config: Option<String>,
    /// Enable debug output
    pub debug: bool,
    /// Log level
    pub log_level: String,
    /// Working directory
    pub work_dir: Option<String>,
}

impl Default for GlobalConfig {
    fn default() -> (r: Self)
        ensures
            r.config is None,
            r.debug == false,
            r.log_level@ == "info"@,
            r.work_dir is None,
    {
        Self { config: None, debug: false, log_level: "info".to_owned(), work_dir: None }
    }
}

/// Types of analysis to perform
#[derive(Debug, Clone)]
pub enum AnalysisType {
    Spectrum,
    Waterfall,
    Constellation,
    EyeDiagram,
    All,
}

/// Analyzer configuration
#[derive(Debug, Clone)]
pub struct AnalyzerConfig {
    pub input_file: String,
    pub output_file: Option<String>,
    pub analysis_type: AnalysisType,
    pub sample_rate: u32,
    pub verbose: u8,
}

/// Input source for transmission
#[derive(Debug, Clone)]
pub enum InputSource {
    Text(String),
    File(String),
}

/// Progress reporter for long-running operations.  The report itself is
/// printed at the edge; this tracks the counters and decides when a new
/// percentage is due.
pub struct ProgressReporter {
    pub total: usize,
    pub current: usize,
    pub last_percent: u8,
    pub verbose: bool,
}

/// The whole-percent progress of `current` against `total`, as the
/// report truncates it to a byte.
pub open spec fn spec_percent(current: usize, total: usize) -> u8
    recommends
        total > 0,
{
    (((current * 100) as int / total as int) % 256) as u8
}

impl ProgressReporter {
    /// Create a new progress reporter
    pub fn new(total: usize, verbose: bool) -> (r: Self)
        ensures
            r == (ProgressReporter { total, current: 0, last_percent: 0, verbose }),
    {
        Self { total, current: 0, last_percent: 0, verbose }
    }

    /// Update progress.  Returns the percentage to announce when the
    /// reporter is verbose and progress reached a new multiple of ten.
    pub fn update(&mut self, current: usize) -> (r: Option<u8>)
        requires
            current * 100 <= usize::MAX,
        ensures
            final(self).total == old(self).total,
            final(self).verbose == old(self).verbose,
            final(self).current == current,
            ({
                let pct = spec_percent(current, old(self).total);
                if old(self).verbose && old(self).total > 0 && pct != old(self).last_percent
                    && pct % 10 == 0 {
                    r == Some(pct) && final(self).last_percent == pct
                } else {
                    r is None && final(self).last_percent == old(self).last_percent
                }
            }),
    {
        self.current = current;
        if self.verbose && self.total > 0 {
            let percent = (((current * 100) / self.total) % 256) as u8;
            if percent != self.last_percent && percent % 10 == 0 {
                self.last_percent = percent;
                return Some(percent);
            }
        }
        None
    }

    /// Mark as complete.  Returns whether a completion line is due.
    pub fn complete(&mut self) -> (r: bool)
        ensures
            *final(self) == *old(self),
            r == old(self).verbose,
    {
        self.verbose
    }
}

} // verus!
