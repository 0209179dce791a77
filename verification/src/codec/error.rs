//! What a decoder refuses, under codes that do not change.
use vstd::prelude::*;
use vstd::string::*;

verus! {

/// The features that cannot be carried over.
#[derive(Clone, Copy, Debug, PartialEq, Eq, Structural)]
pub enum FeatureKind {
    Thinking,
    StructuredOutput,
    BuiltinTool,
    Document,
    PromptCache,
    UnknownRole,
    UnknownBlock,
    UnknownEvent,
    UnknownFinishReason,
    InvalidToolArguments,
    MissingToolField,
    Media,
}

impl FeatureKind {
    /// The stable code of a feature.
    pub open spec fn stable_code(self) -> Seq<char> {
        match self {
            FeatureKind::Thinking => "unsupported_feature.thinking"@,
            FeatureKind::StructuredOutput => "unsupported_feature.structured_output"@,
            FeatureKind::BuiltinTool => "unsupported_feature.builtin_tool"@,
            FeatureKind::Document => "unsupported_feature.document"@,
            FeatureKind::PromptCache => "unsupported_feature.prompt_cache"@,
            FeatureKind::UnknownRole => "unsupported_feature.unknown_role"@,
            FeatureKind::UnknownBlock => "unsupported_feature.unknown_block"@,
            FeatureKind::UnknownEvent => "unsupported_feature.unknown_event"@,
            FeatureKind::UnknownFinishReason => "unsupported_feature.finish_reason"@,
            FeatureKind::InvalidToolArguments => "unsupported_feature.invalid_tool_arguments"@,
            FeatureKind::MissingToolField => "unsupported_feature.missing_tool_field"@,
            FeatureKind::Media => "unsupported_media"@,
        }
    }

    /// The stable code of this feature.
    pub fn code(&self) -> (r: &'static str)
        ensures
            r@ == self.stable_code(),
    {
        match self {
            FeatureKind::Thinking => "unsupported_feature.thinking",
            FeatureKind::StructuredOutput => "unsupported_feature.structured_output",
            FeatureKind::BuiltinTool => "unsupported_feature.builtin_tool",
            FeatureKind::Document => "unsupported_feature.document",
            FeatureKind::PromptCache => "unsupported_feature.prompt_cache",
            FeatureKind::UnknownRole => "unsupported_feature.unknown_role",
            FeatureKind::UnknownBlock => "unsupported_feature.unknown_block",
            FeatureKind::UnknownEvent => "unsupported_feature.unknown_event",
            FeatureKind::UnknownFinishReason => "unsupported_feature.finish_reason",
            FeatureKind::InvalidToolArguments => "unsupported_feature.invalid_tool_arguments",
            FeatureKind::MissingToolField => "unsupported_feature.missing_tool_field",
            FeatureKind::Media => "unsupported_media",
        }
    }
}

/// A refusal: the codes of the refused features, and where each stands in the input.
#[derive(Debug)]
pub struct UnsupportedFeatures {
    pub features: Vec<String>,
    pub json_pointers: Vec<String>,
}

/// The mathematical model of a refusal.
pub struct Refusal {
    pub features: Seq<Seq<char>>,
    pub json_pointers: Seq<Seq<char>>,
}

/// The characters of each text.
pub open spec fn texts_model(texts: Seq<String>) -> Seq<Seq<char>> {
    texts.map_values(|text: String| text@)
}

impl View for UnsupportedFeatures {
    type V = Refusal;

    open spec fn view(&self) -> Refusal {
        Refusal {
            features: texts_model(self.features@),
            json_pointers: texts_model(self.json_pointers@),
        }
    }
}

/// A refusal of one feature at one place.
pub open spec fn refusal(kind: FeatureKind, pointer: Seq<char>) -> Refusal {
    Refusal { features: seq![kind.stable_code()], json_pointers: seq![pointer] }
}

impl UnsupportedFeatures {
    /// Refuses one feature at one place.
    pub fn single(kind: FeatureKind, pointer: &str) -> (r: UnsupportedFeatures)
        ensures
            r@ == refusal(kind, pointer@),
    {
        let r = UnsupportedFeatures {
            features: vec![kind.code().to_owned()],
            json_pointers: vec![pointer.to_owned()],
        };
        assert(r@.features =~= refusal(kind, pointer@).features);
        assert(r@.json_pointers =~= refusal(kind, pointer@).json_pointers);
        r
    }
}

/// The codes of the refused features.
pub fn reject_features(e: &UnsupportedFeatures) -> (r: Vec<String>)
    ensures
        texts_model(r@) == e@.features,
{
    let mut codes: Vec<String> = Vec::new();
    let mut i: usize = 0;
    while i < e.features.len()
        invariant
            i <= e.features@.len(),
            codes@.len() == i,
            forall|j: int| 0 <= j < i ==> #[trigger] codes@[j]@ == e.features@[j]@,
        decreases e.features@.len() - i,
    {
        codes.push(e.features[i].clone());
        i += 1;
    }
    assert(texts_model(codes@) =~= e@.features);
    codes
}

} // verus!
