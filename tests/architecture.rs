use llm::{ModelArchitecture, UnsupportedModelArchitecture};

#[test]
fn test_model_architecture_from_str() {
    for arch in ModelArchitecture::ALL.iter() {
        assert_eq!(
            arch,
            &arch.to_string().parse::<ModelArchitecture>().unwrap()
        );
    }
}

#[test]
fn architecture_tags_ignore_case_and_punctuation() {
    assert_eq!(ModelArchitecture::parse("GPT-NeoX").ok(), Some(ModelArchitecture::GptNeoX));
    assert_eq!(ModelArchitecture::parse("gpt_j").ok(), Some(ModelArchitecture::GptJ));
    assert_eq!(ModelArchitecture::parse("LLaMA").ok(), Some(ModelArchitecture::Llama));
    assert_eq!(ModelArchitecture::parse("rwkv").ok(), Some(ModelArchitecture::Rwkv));
}

#[test]
fn unknown_architecture_is_rejected_with_message() {
    let err: UnsupportedModelArchitecture = ModelArchitecture::parse("falcon").err().unwrap();
    assert_eq!(err.to_string(), "falcon is not a supported model architecture");
}

#[test]
fn display_names() {
    assert_eq!(ModelArchitecture::Gpt2.to_string(), "GPT-2");
    assert_eq!(ModelArchitecture::Bloom.to_string(), "BLOOM");
}

#[test]
fn lookup_by_canonical_tag() {
    let tag: Vec<char> = "mpt".chars().collect();
    assert_eq!(ModelArchitecture::from_tag(&tag), Some(ModelArchitecture::Mpt));
    let other: Vec<char> = "gpt-2".chars().collect();
    assert_eq!(ModelArchitecture::from_tag(&other), None);
    assert_eq!(ModelArchitecture::from_lowercase("gpt-2").ok(), Some(ModelArchitecture::Gpt2));
}

#[test]
fn uppercase_tags_are_lowered_first() {
    assert_eq!(ModelArchitecture::parse("BLOOM").ok(), Some(ModelArchitecture::Bloom));
    assert_eq!(ModelArchitecture::parse("GPT2").ok(), Some(ModelArchitecture::Gpt2));
}
