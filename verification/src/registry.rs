//! Codec registry: descriptions of the available codecs, keyed by their
//! identifier strings.  JSON export is edge work; lookup, listing, and
//! registration are decided here.

use vstd::prelude::*;
use crate::errors::CodecError;
use crate::strutil::str_eq;

verus! {

/// Type of codec
#[derive(Debug, Clone)]
pub enum CodecType {
    Text,
    Voice,
    Binary,
}

/// Whether two codec types are the same variant.
pub open spec fn same_codec_type(a: CodecType, b: CodecType) -> bool {
    (a is Text && b is Text) || (a is Voice && b is Voice) || (a is Binary && b is Binary)
}

/// Parameter types
#[derive(Debug, Clone)]
pub enum ParameterType {
    Integer,
    Float,
    String,
    Boolean,
    Enum(Vec<String>),
}

/// Codec parameter information
#[derive(Debug, Clone)]
pub struct CodecParameter {
    pub name: String,
    pub description: String,
    pub parameter_type: ParameterType,
    pub default_value: String,
    pub valid_range: Option<(String, String)>,
}

/// Information about a codec
#[derive(Debug, Clone)]
pub struct CodecInfo {
    pub id: String,
    pub name: String,
    pub description: String,
    pub codec_type: CodecType,
    pub version: String,
    /// Parameter table: entries of (key, parameter).
    pub parameters: Vec<(String, CodecParameter)>,
}

/// Registry for managing available codecs
pub struct CodecRegistry {
    codecs: Vec<CodecInfo>,
}

impl CodecRegistry {
    /// The registered codec descriptions, in registration order.
    pub closed spec fn entries(&self) -> Seq<CodecInfo> {
        self.codecs@
    }

    /// Whether some entry carries the given identifier.
    pub open spec fn spec_has_id(&self, id: Seq<char>) -> bool {
        exists|j: int| 0 <= j < self.entries().len() && (#[trigger] self.entries()[j]).id@ == id
    }

    /// Identifiers are unique.
    pub open spec fn wf(&self) -> bool {
        forall|j: int, k: int|
            0 <= j < k < self.entries().len() ==> (#[trigger] self.entries()[j]).id@ != (
            #[trigger] self.entries()[k]).id@
    }

    /// Create a new codec registry with the built-in codecs registered:
    /// the Huffman text codec, the plain text codec, and 16-bit PCM.
    pub fn new() -> (r: Self)
        ensures
            r.wf(),
            r.entries().len() == 3,
            r.spec_has_id("huffman-english"@),
            r.spec_has_id("ascii"@),
            r.spec_has_id("pcm-16"@),
            r.entries()[0].id@ == "huffman-english"@ && r.entries()[0].codec_type is Text,
            r.entries()[1].id@ == "ascii"@ && r.entries()[1].codec_type is Text,
            r.entries()[2].id@ == "pcm-16"@ && r.entries()[2].codec_type is Voice,
            r.entries()[0].parameters@.len() == 0,
            r.entries()[1].parameters@.len() == 0,
            r.entries()[2].parameters@.len() == 1,
            r.entries()[2].parameters@[0].0@ == "sample_rate"@,
    {
        let mut registry = Self { codecs: Vec::new() };
        registry.register_builtin_codecs();
        registry
    }

    /// Register built-in codecs
    fn register_builtin_codecs(&mut self)
        requires
            old(self).entries().len() == 0,
        ensures
            final(self).wf(),
            final(self).entries().len() == 3,
            final(self).entries()[0].id@ == "huffman-english"@,
            final(self).entries()[1].id@ == "ascii"@,
            final(self).entries()[2].id@ == "pcm-16"@,
            final(self).entries()[0].codec_type is Text,
            final(self).entries()[1].codec_type is Text,
            final(self).entries()[2].codec_type is Voice,
            final(self).entries()[0].parameters@.len() == 0,
            final(self).entries()[1].parameters@.len() == 0,
            final(self).entries()[2].parameters@.len() == 1,
            final(self).entries()[2].parameters@[0].0@ == "sample_rate"@,
            final(self).spec_has_id("huffman-english"@),
            final(self).spec_has_id("ascii"@),
            final(self).spec_has_id("pcm-16"@),
    {
        let huffman_info = CodecInfo {
            id: "huffman-english".to_owned(),
            name: "Huffman English".to_owned(),
            description: "Huffman coding optimized for English text".to_owned(),
            codec_type: CodecType::Text,
            version: "1.0.0".to_owned(),
            parameters: Vec::new(),
        };
        self.codecs.push(huffman_info);

        let ascii_info = CodecInfo {
            id: "ascii".to_owned(),
            name: "ASCII".to_owned(),
            description: "Plain ASCII encoding (no compression)".to_owned(),
            codec_type: CodecType::Text,
            version: "1.0.0".to_owned(),
            parameters: Vec::new(),
        };
        self.codecs.push(ascii_info);

        let mut pcm_params: Vec<(String, CodecParameter)> = Vec::new();
        pcm_params.push(
            (
                "sample_rate".to_owned(),
                CodecParameter {
                    name: "Sample Rate".to_owned(),
                    description: "Audio sample rate in Hz".to_owned(),
                    parameter_type: ParameterType::Integer,
                    default_value: "8000".to_owned(),
                    valid_range: Some(("8000".to_owned(), "48000".to_owned())),
                },
            ),
        );
        let pcm_info = CodecInfo {
            id: "pcm-16".to_owned(),
            name: "PCM 16-bit".to_owned(),
            description: "Uncompressed 16-bit PCM audio".to_owned(),
            codec_type: CodecType::Voice,
            version: "1.0.0".to_owned(),
            parameters: pcm_params,
        };
        self.codecs.push(pcm_info);

        proof {
            reveal_strlit("huffman-english");
            reveal_strlit("ascii");
            reveal_strlit("pcm-16");
            assert(self.entries()[0].id@ == "huffman-english"@);
            assert(self.entries()[1].id@ == "ascii"@);
            assert(self.entries()[2].id@ == "pcm-16"@);
            assert("huffman-english"@.len() == 15 && "ascii"@.len() == 5 && "pcm-16"@.len()
                == 6);
        }
    }

    /// The index of the entry with the given identifier, if any.
    fn find_index(&self, id: &str) -> (r: Option<usize>)
        ensures
            match r {
                Some(j) => j < self.entries().len() && self.entries()[j as int].id@ == id@,
                None => !self.spec_has_id(id@),
            },
    {
        let mut j: usize = 0;
        while j < self.codecs.len()
            invariant
                0 <= j <= self.entries().len(),
                forall|t: int| 0 <= t < j ==> (#[trigger] self.entries()[t]).id@ != id@,
            decreases self.entries().len() - j,
        {
            if str_eq(self.codecs[j].id.as_str(), id) {
                return Some(j);
            }
            j = j + 1;
        }
        None
    }

    /// Register a new codec
    pub fn register(&mut self, info: CodecInfo) -> (r: Result<(), CodecError>)
        requires
            old(self).wf(),
        ensures
            final(self).wf(),
            match r {
                Ok(_) => !old(self).spec_has_id(info.id@) && final(self).entries() == old(
                    self,
                ).entries().push(info),
                Err(e) => old(self).spec_has_id(info.id@) && *final(self) == *old(self)
                    && e is InvalidParameters,
            },
    {
        match self.find_index(info.id.as_str()) {
            Option::Some(_) => Err(CodecError::InvalidParameters {
                msg: "codec already registered".to_owned(),
            }),
            Option::None => {
                self.codecs.push(info);
                proof {
                    assert forall|j: int, k: int|
                        0 <= j < k < self.entries().len() implies (
                    #[trigger] self.entries()[j]).id@ != (#[trigger] self.entries()[k]).id@ by {
                        if k == self.entries().len() - 1 {
                            assert(old(self).entries()[j].id@ != self.entries()[k].id@);
                        }
                    }
                }
                Ok(())
            },
        }
    }

    /// Get information about a codec
    pub fn get(&self, id: &str) -> (r: Option<&CodecInfo>)
        ensures
            match r {
                Some(c) => self.spec_has_id(id@) && c.id@ == id@ && exists|j: int|
                    0 <= j < self.entries().len() && *c == #[trigger] self.entries()[j],
                None => !self.spec_has_id(id@),
            },
    {
        match self.find_index(id) {
            Option::Some(j) => Some(&self.codecs[j]),
            Option::None => None,
        }
    }

    /// List all available codecs
    pub fn list(&self) -> (r: Vec<&CodecInfo>)
        ensures
            r@.len() == self.entries().len(),
            forall|j: int| 0 <= j < r@.len() ==> *(#[trigger] r@[j]) == self.entries()[j],
    {
        let mut out: Vec<&CodecInfo> = Vec::new();
        let mut j: usize = 0;
        while j < self.codecs.len()
            invariant
                0 <= j <= self.entries().len(),
                out@.len() == j,
                forall|t: int| 0 <= t < j ==> *(#[trigger] out@[t]) == self.entries()[t],
            decreases self.entries().len() - j,
        {
            out.push(&self.codecs[j]);
            j = j + 1;
        }
        out
    }

    /// List codecs by type
    pub fn list_by_type(&self, codec_type: CodecType) -> (r: Vec<&CodecInfo>)
        ensures
            r@.map_values(|c: &CodecInfo| *c) == self.entries().filter(
                |c: CodecInfo| same_codec_type(c.codec_type, codec_type),
            ),
    {
        let ghost pred = |c: CodecInfo| same_codec_type(c.codec_type, codec_type);
        let mut out: Vec<&CodecInfo> = Vec::new();
        let mut j: usize = 0;
        proof {
            reveal(Seq::filter);
            assert(self.entries().subrange(0, 0) =~= Seq::<CodecInfo>::empty());
            assert(out@.map_values(|c: &CodecInfo| *c) =~= self.entries().subrange(0, 0).filter(
                pred,
            ));
        }
        while j < self.codecs.len()
            invariant
                0 <= j <= self.entries().len(),
                pred == (|c: CodecInfo| same_codec_type(c.codec_type, codec_type)),
                out@.map_values(|c: &CodecInfo| *c) == self.entries().subrange(0, j as int).filter(
                    pred,
                ),
            decreases self.entries().len() - j,
        {
            let matches_type = match (&self.codecs[j].codec_type, &codec_type) {
                (CodecType::Text, CodecType::Text) => true,
                (CodecType::Voice, CodecType::Voice) => true,
                (CodecType::Binary, CodecType::Binary) => true,
                _ => false,
            };
            proof {
                assert(self.entries().subrange(0, j as int + 1).drop_last() =~= self.entries()
                    .subrange(0, j as int));
                assert(self.entries().subrange(0, j as int + 1).last() == self.entries()[
                    j as int
                ]);
            }
            let ghost prev_map = out@.map_values(|c: &CodecInfo| *c);
            let ghost prev = self.entries().subrange(0, j as int);
            let ghost cur = self.entries().subrange(0, j as int + 1);
            if matches_type {
                out.push(&self.codecs[j]);
                proof {
                    reveal(Seq::filter);
                    assert(pred(cur.last()));
                    assert(cur.filter(pred) == prev.filter(pred).push(cur.last()));
                    assert(out@.map_values(|c: &CodecInfo| *c) =~= prev_map.push(
                        self.entries()[j as int],
                    ));
                }
            } else {
                proof {
                    reveal(Seq::filter);
                    assert(!pred(cur.last()));
                    assert(cur.filter(pred) == prev.filter(pred));
                }
            }
            j = j + 1;
        }
        proof {
            assert(self.entries().subrange(0, self.entries().len() as int) =~= self.entries());
        }
        out
    }

    /// Check if a codec is available
    pub fn is_available(&self, id: &str) -> (r: bool)
        ensures
            r == self.spec_has_id(id@),
    {
        match self.find_index(id) {
            Option::Some(_) => true,
            Option::None => false,
        }
    }
}

impl Default for CodecRegistry {
    fn default() -> (r: Self)
        ensures
            r.wf(),
            r.entries().len() == 3,
    {
        Self::new()
    }
}

} // verus!
