use vstd::prelude::*;
use vstd::string::{StrSliceExecFns, StringExecFns};

verus! {

/// The model architectures that a runtime tag can name.
#[derive(Debug, Clone, Copy, PartialEq, Eq, Hash, Structural)]
pub enum ModelArchitecture {
    /// BLOOM
    Bloom,
    /// GPT-2
    Gpt2,
    /// GPT-J
    GptJ,
    /// GPT-NeoX
    GptNeoX,
    /// LLaMA
    Llama,
    /// MPT
    Mpt,
    /// RWKV
    Rwkv,
}

/// A tag that names no known architecture; holds the message shown to the user.
#[derive(Debug)]
pub struct UnsupportedModelArchitecture(pub String);

/// What `str::to_lowercase` makes of a string.
pub uninterp spec fn lower_of(s: Seq<char>) -> Seq<char>;

/// Whether `char::is_alphanumeric` holds of a character.
pub uninterp spec fn alphanumeric(c: char) -> bool;

/// Relies on `str::to_lowercase`: the lowercase form depends on the characters alone.
#[verifier::external_body]
fn lowercase(s: &str) -> (r: String)
    ensures
        r@ == lower_of(s@),
{
    s.to_lowercase()
}

/// Relies on `char::is_alphanumeric`.
#[verifier::external_body]
fn is_alphanumeric(c: char) -> (r: bool)
    ensures
        r == alphanumeric(c),
{
    c.is_alphanumeric()
}

/// The message for an unsupported tag: the tag followed by a fixed sentence.
fn unsupported_message(s: &str) -> (r: String)
    ensures
        r@ == s@ + " is not a supported model architecture"@,
{
    let mut r = s.to_owned();
    r.append(" is not a supported model architecture");
    r
}

/// The characters of `s` that are alphanumeric, in order.
pub open spec fn keep_alphanumeric(s: Seq<char>) -> Seq<char>
    decreases s.len(),
{
    if s.len() == 0 {
        s
    } else {
        let rest = keep_alphanumeric(s.drop_last());
        if alphanumeric(s.last()) {
            rest.push(s.last())
        } else {
            rest
        }
    }
}

/// The canonical form of a tag: lowercase, with everything but letters and digits removed.
pub open spec fn normalized_tag(s: Seq<char>) -> Seq<char> {
    keep_alphanumeric(lower_of(s))
}

impl ModelArchitecture {
    /// Every architecture, in declaration order.
    pub const ALL: [ModelArchitecture; 7] = [
        ModelArchitecture::Bloom,
        ModelArchitecture::Gpt2,
        ModelArchitecture::GptJ,
        ModelArchitecture::GptNeoX,
        ModelArchitecture::Llama,
        ModelArchitecture::Mpt,
        ModelArchitecture::Rwkv,
    ];

    /// The canonical lowercase tag of the architecture.
    pub open spec fn tag(self) -> Seq<char> {
        match self {
            ModelArchitecture::Bloom => "bloom"@,
            ModelArchitecture::Gpt2 => "gpt2"@,
            ModelArchitecture::GptJ => "gptj"@,
            ModelArchitecture::GptNeoX => "gptneox"@,
            ModelArchitecture::Llama => "llama"@,
            ModelArchitecture::Mpt => "mpt"@,
            ModelArchitecture::Rwkv => "rwkv"@,
        }
    }

    /// The display name of the architecture.
    pub open spec fn display_name(self) -> Seq<char> {
        match self {
            ModelArchitecture::Bloom => "BLOOM"@,
            ModelArchitecture::Gpt2 => "GPT-2"@,
            ModelArchitecture::GptJ => "GPT-J"@,
            ModelArchitecture::GptNeoX => "GPT-NeoX"@,
            ModelArchitecture::Llama => "LLaMA"@,
            ModelArchitecture::Mpt => "MPT"@,
            ModelArchitecture::Rwkv => "RWKV"@,
        }
    }

    /// The architecture whose canonical tag is `tag`, if any.
    pub open spec fn with_tag(tag: Seq<char>) -> Option<ModelArchitecture> {
        if exists|a: ModelArchitecture| a.tag() == tag {
            Some(choose|a: ModelArchitecture| a.tag() == tag)
        } else {
            None
        }
    }

    /// The display name of the architecture, as shown to users.
    pub fn to_string(&self) -> (r: String)
        ensures
            r@ == self.display_name(),
    {
        let name: &str = match self {
            ModelArchitecture::Bloom => "BLOOM",
            ModelArchitecture::Gpt2 => "GPT-2",
            ModelArchitecture::GptJ => "GPT-J",
            ModelArchitecture::GptNeoX => "GPT-NeoX",
            ModelArchitecture::Llama => "LLaMA",
            ModelArchitecture::Mpt => "MPT",
            ModelArchitecture::Rwkv => "RWKV",
        };
        name.to_owned()
    }

    /// Looks up an architecture by its canonical tag (lowercase letters and digits only).
    pub fn from_tag(tag: &[char]) -> (r: Option<ModelArchitecture>)
        ensures
            r == Self::with_tag(tag@),
            r matches Some(a) ==> a.tag() == tag@,
    {
        proof {
            lemma_tags_distinct();
        }
        let r = if chars_equal(tag, "bloom") {
            Some(ModelArchitecture::Bloom)
        } else if chars_equal(tag, "gpt2") {
            Some(ModelArchitecture::Gpt2)
        } else if chars_equal(tag, "gptj") {
            Some(ModelArchitecture::GptJ)
        } else if chars_equal(tag, "gptneox") {
            Some(ModelArchitecture::GptNeoX)
        } else if chars_equal(tag, "llama") {
            Some(ModelArchitecture::Llama)
        } else if chars_equal(tag, "mpt") {
            Some(ModelArchitecture::Mpt)
        } else if chars_equal(tag, "rwkv") {
            Some(ModelArchitecture::Rwkv)
        } else {
            proof {
                assert forall|a: ModelArchitecture| a.tag() != tag@ by {
                    match a {
                        ModelArchitecture::Bloom => {},
                        ModelArchitecture::Gpt2 => {},
                        ModelArchitecture::GptJ => {},
                        ModelArchitecture::GptNeoX => {},
                        ModelArchitecture::Llama => {},
                        ModelArchitecture::Mpt => {},
                        ModelArchitecture::Rwkv => {},
                    }
                }
            }
            None
        };
        proof {
            if let Some(a) = r {
                lemma_with_own_tag(a);
            }
        }
        r
    }

    /// Finds the architecture named by an already lowercased tag: characters that
    /// are neither letters nor digits are ignored.
    pub fn from_lowercase(lowered: &str) -> (r: Result<ModelArchitecture, ()>)
        ensures
            r is Ok <==> Self::with_tag(keep_alphanumeric(lowered@)) is Some,
            r matches Ok(a) ==> a.tag() == keep_alphanumeric(lowered@),
    {
        let n = lowered.unicode_len();
        let mut kept: Vec<char> = Vec::new();
        let mut i: usize = 0;
        while i < n
            invariant
                n == lowered@.len(),
                i <= n,
                kept@ == keep_alphanumeric(lowered@.take(i as int)),
            decreases n - i,
        {
            let c = lowered.get_char(i);
            proof {
                assert(lowered@.take(i + 1).drop_last() == lowered@.take(i as int));
            }
            if is_alphanumeric(c) {
                kept.push(c);
            }
            i = i + 1;
        }
        proof {
            assert(lowered@.take(n as int) == lowered@);
        }
        match Self::from_tag(kept.as_slice()) {
            Some(a) => Ok(a),
            None => Err(()),
        }
    }

    /// Parses a runtime architecture tag, ignoring case and any character that is
    /// neither a letter nor a digit.
    pub fn parse(s: &str) -> (r: Result<ModelArchitecture, UnsupportedModelArchitecture>)
        ensures
            r is Ok <==> Self::with_tag(normalized_tag(s@)) is Some,
            r matches Ok(a) ==> a.tag() == normalized_tag(s@),
            r matches Err(e) ==> e.0@ == s@ + " is not a supported model architecture"@,
    {
        let lowered = lowercase(s);
        match Self::from_lowercase(lowered.as_str()) {
            Ok(a) => Ok(a),
            Err(()) => Err(UnsupportedModelArchitecture(unsupported_message(s))),
        }
    }
}

impl std::str::FromStr for ModelArchitecture {
    type Err = UnsupportedModelArchitecture;

    fn from_str(s: &str) -> Result<ModelArchitecture, UnsupportedModelArchitecture> {
        ModelArchitecture::parse(s)
    }
}

impl UnsupportedModelArchitecture {
    /// The message that names the rejected tag.
    pub fn to_string(&self) -> (r: String)
        ensures
            r@ == self.0@,
    {
        self.0.clone()
    }
}

/// Whether the characters of `v` are exactly those of `s`.
fn chars_equal(v: &[char], s: &str) -> (r: bool)
    ensures
        r == (v@ == s@),
{
    let n = s.unicode_len();
    if v.len() != n {
        return false;
    }
    let mut i: usize = 0;
    while i < n
        invariant
            n == s@.len(),
            v@.len() == n,
            i <= n,
            forall|j: int| 0 <= j < i ==> v@[j] == s@[j],
        decreases n - i,
    {
        if v[i] != s.get_char(i) {
            return false;
        }
        i = i + 1;
    }
    proof {
        assert(v@ == s@);
    }
    true
}

proof fn lemma_with_own_tag(a: ModelArchitecture)
    ensures
        ModelArchitecture::with_tag(a.tag()) == Some(a),
{
    lemma_tags_distinct();
}

proof fn lemma_tags_distinct()
    ensures
        forall|a: ModelArchitecture, b: ModelArchitecture| a.tag() == b.tag() ==> a == b,
{
    reveal_strlit("bloom");
    reveal_strlit("gpt2");
    reveal_strlit("gptj");
    reveal_strlit("gptneox");
    reveal_strlit("llama");
    reveal_strlit("mpt");
    reveal_strlit("rwkv");
    assert forall|a: ModelArchitecture, b: ModelArchitecture| a.tag() == b.tag() implies a == b by {
        if a.tag() == b.tag() && a != b {
            assert(a.tag().len() != b.tag().len() || a.tag()[0] != b.tag()[0] || a.tag()[3]
                != b.tag()[3]);
        }
    }
}

} // verus!
