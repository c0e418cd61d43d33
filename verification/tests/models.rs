use lml::models::{is_gguf_file, is_primary_model, is_primary_stem, scan_step, slug, ScanStep};

#[test]
fn slug_lowercases_and_joins_words() {
    assert_eq!(slug("Qwen3-8B.Q4_K_M"), "qwen3-8b-q4-k-m");
    assert_eq!(slug("  Llama 3.1 (Instruct)  "), "llama-3-1-instruct");
    assert_eq!(slug("already-clean"), "already-clean");
}

#[test]
fn slug_of_a_name_without_words_is_model() {
    assert_eq!(slug(""), "model");
    assert_eq!(slug("---"), "model");
    assert_eq!(slug("ÄÖÜ"), "model");
}

#[test]
fn slug_keeps_only_ascii_letters_and_digits() {
    assert_eq!(slug("Mötley_Crüe"), "m-tley-cr-e");
}

#[test]
fn first_shard_of_a_split_model_is_primary() {
    assert!(is_primary_stem("Qwen3-235B-Q4_K_M-00001-of-00003"));
    assert!(!is_primary_stem("Qwen3-235B-Q4_K_M-00002-of-00003"));
    assert!(!is_primary_stem("qwen-00003-OF-00003"));
}

#[test]
fn projectors_are_not_primary() {
    assert!(!is_primary_stem("mmproj-model-f16"));
    assert!(!is_primary_stem("MMPROJ-model"));
    assert!(!is_primary_stem("gemma-3-MMProj-f16"));
    assert!(!is_primary_stem("gemma-mmprojector"));
    assert!(is_primary_stem("gemma-mm-proj"));
}

#[test]
fn unusual_split_names_stay_primary() {
    assert!(is_primary_stem("model-1-of-3"));
    assert!(is_primary_stem("model-0000a-of-00003"));
    assert!(is_primary_stem("00002-of-00003"));
    assert!(is_primary_stem("plain"));
    assert!(is_primary_stem(""));
}

#[test]
fn primary_model_reads_the_file_stem() {
    assert!(is_primary_model("/models/qwen-00001-of-00002.gguf"));
    assert!(!is_primary_model("/models/qwen-00002-of-00002.gguf"));
    assert!(!is_primary_model("/models/mmproj-qwen.gguf"));
    assert!(is_primary_model("/"));
}

#[test]
fn gguf_extension_in_any_case() {
    assert!(is_gguf_file("/models/a.gguf"));
    assert!(is_gguf_file("/models/a.GGUF"));
    assert!(!is_gguf_file("/models/a.gguf.part"));
    assert!(!is_gguf_file("/models/gguf"));
    assert!(!is_gguf_file("/models/.gguf"));
}

#[test]
fn scan_steps() {
    assert_eq!(scan_step("/models/sub", true, false), ScanStep::Descend);
    assert_eq!(scan_step("/models/a.Gguf", false, true), ScanStep::Candidate);
    assert_eq!(scan_step("/models/a.txt", false, true), ScanStep::Skip);
    assert_eq!(scan_step("/models/a.gguf", false, false), ScanStep::Skip);
}
