use cortiq_gateway::config::CmfCfg;
use cortiq_gateway::import::{
    cmf_file_for_repo, hf_download_url, hf_search_url, hf_tree_url, is_cmf_repo, job_id, map_quant,
    plan_import, progress_parts, sanitize, url_escape, ImportEnv, ImportParams, Launch,
};

#[test]
fn test_map_quant_variants() {
    assert_eq!(map_quant("Q8_2F"), "q8_2f");
    assert_eq!(map_quant("q82f"), "q8_2f");
    assert_eq!(map_quant("Q8_ROW"), "q8");
    assert_eq!(map_quant("Q4_BLOCK"), "q4");
    assert_eq!(map_quant("Q4_TILED"), "q4t");
    assert_eq!(map_quant("q4t"), "q4t");
    assert_eq!(map_quant("vbit"), "vbit");
    assert_eq!(map_quant("q1"), "q1");
    assert_eq!(map_quant("Q1P"), "q1p");
    assert_eq!(map_quant("q1s"), "q1s");
    assert_eq!(map_quant("Q1T"), "q1t");
    assert_eq!(map_quant("F16"), "f16");
}

#[test]
fn test_is_cmf_repo_check() {
    assert!(is_cmf_repo("infosave/Bonsai-8B_2bit_cmf"));
    assert!(is_cmf_repo("infosave/Bonsai-1.7Bcmf"));
    assert!(is_cmf_repo("user/model.cmf"));
    assert!(!is_cmf_repo("Qwen/Qwen2.5-0.5B-Instruct"));
}

#[test]
fn map_quant_other_labels() {
    assert_eq!(map_quant("fp16"), "f16");
    assert_eq!(map_quant("Q1_PTQ"), "q1p");
    assert_eq!(map_quant("q1_mask"), "q1s");
    assert_eq!(map_quant("Q1_TERNARY"), "q1t");
    assert_eq!(map_quant("Q4T_X"), "q4t");
    assert_eq!(map_quant(""), "q8");
}

#[test]
fn sanitize_replaces_unsafe_characters() {
    assert_eq!(sanitize("Qwen2.5-0.5B Instruct/x"), "Qwen2-5-0-5B-Instruct-x");
    assert_eq!(sanitize("ok_name-1"), "ok_name-1");
}

#[test]
fn url_escape_encodes_query() {
    assert_eq!(url_escape("qwen 2.5/x"), "qwen+2.5/x");
    assert_eq!(url_escape("a&b"), "a%26b");
    assert_eq!(url_escape("é"), "%E9");
    assert_eq!(url_escape("中"), "%4E2D");
}

#[test]
fn job_id_is_sixteen_hex_digits() {
    assert_eq!(job_id(255), "00000000000000ff");
    assert_eq!(job_id(0xdead_beef_0000_0001), "deadbeef00000001");
}

#[test]
fn cmf_file_prefers_listed_cmf() {
    let listing = vec!["README.md".to_string(), "weights/Model.CMF".to_string(), "b.cmf".to_string()];
    assert_eq!(cmf_file_for_repo("org/repo", &listing), "weights/Model.CMF");
    let none: Vec<String> = vec!["a.txt".to_string()];
    assert_eq!(cmf_file_for_repo("org/my-model", &none), "my-model.cmf");
}

#[test]
fn hf_urls() {
    assert_eq!(
        hf_search_url("  ", 24),
        "https://huggingface.co/api/models?search=++&sort=trendingScore&direction=-1&limit=24&full=false"
    );
    assert_eq!(
        hf_search_url("qwen", 5),
        "https://huggingface.co/api/models?search=qwen&sort=downloads&direction=-1&limit=5&full=false"
    );
    assert_eq!(hf_tree_url("a/b"), "https://huggingface.co/api/models/a/b/tree/main?recursive=true");
    assert_eq!(hf_download_url("a/b", "m.cmf"), "https://huggingface.co/a/b/resolve/main/m.cmf");
}

#[test]
fn progress_markers() {
    assert_eq!(
        progress_parts("@PROGRESS 0.5 loading weights "),
        Some(("0.5".to_string(), "loading weights".to_string()))
    );
    assert_eq!(progress_parts("@PROGRESS 1"), Some(("1".to_string(), String::new())));
    assert_eq!(progress_parts("plain log line"), None);
}

fn params(repo: &str) -> ImportParams {
    ImportParams {
        repo: repo.to_string(),
        quant: "Q4_BLOCK".to_string(),
        name: String::new(),
        linear_core: None,
        nphase: None,
        vbit_shape: None,
        mean_bits: None,
        shard_max_gb: None,
        skip_mtp: false,
        o1: None,
        o1_m: None,
        o1_window: None,
        o1_sink: None,
    }
}

fn env() -> ImportEnv {
    ImportEnv {
        converter_exists: false,
        converter_abs: None,
        cortiq_version: Some("0.2.1".to_string()),
        models_dir_abs: Some("/data/models".to_string()),
        hf_token: Some("tok".to_string()),
    }
}

#[test]
fn plan_convert_with_token_and_o1() {
    let cmf = CmfCfg::defaults("data");
    let mut p = params("Qwen/Qwen2.5-0.5B-Instruct");
    p.o1 = Some(" deep4 ".to_string());
    p.o1_m = Some(32);
    let plan = plan_import(&cmf, &p, &env()).ok().unwrap();
    assert_eq!(plan.base, "Qwen2-5-0-5B-Instruct");
    assert_eq!(plan.output, "/data/models/Qwen2-5-0-5B-Instruct.cmf");
    assert_eq!(plan.first_line, "→ converting Qwen/Qwen2.5-0.5B-Instruct to Qwen2-5-0-5B-Instruct (Q4_BLOCK)");
    assert!(plan.launch == Launch::Convert);
    assert_eq!(plan.program, "cortiq");
    assert_eq!(
        plan.args,
        vec![
            "convert", "--model", "Qwen/Qwen2.5-0.5B-Instruct", "--quant", "q4", "--output",
            "/data/models/Qwen2-5-0-5B-Instruct.cmf", "--hf-token", "tok", "--o1", "deep4", "--o1-m", "32"
        ]
    );
}

#[test]
fn plan_errors() {
    let cmf = CmfCfg::defaults("data");
    assert_eq!(plan_import(&cmf, &params("  "), &env()).err().unwrap(), "empty repo id");
    let mut p = params("a/b");
    p.vbit_shape = Some("log2".to_string());
    assert_eq!(
        plan_import(&cmf, &p, &env()).err().unwrap(),
        "advanced options need the Python converter, not found: ../cmf/converter/convert_dtgma_to_cmf.py"
    );
    let mut p = params("a/b-GGUF");
    p.o1 = Some("all".to_string());
    assert_eq!(
        plan_import(&cmf, &p, &env()).err().unwrap(),
        "O(1) attention is not supported for GGUF imports yet"
    );
    let mut e = env();
    e.cortiq_version = Some("0.1.9".to_string());
    let mut p = params("a/b");
    p.o1 = Some("all".to_string());
    assert_eq!(
        plan_import(&cmf, &p, &e).err().unwrap(),
        "O(1) attention needs cortiq ≥ 0.2.0 (installed: 0.1.9) — update the runtime in Settings → Local models"
    );
    // "off" is no hint at all
    let mut p = params("a/b");
    p.o1 = Some("off".to_string());
    assert!(plan_import(&cmf, &p, &e).is_ok());
}

#[test]
fn plan_download_gguf_and_python() {
    let cmf = CmfCfg::defaults("data");
    let mut e = env();
    e.models_dir_abs = None;
    let plan = plan_import(&cmf, &params("infosave/Bonsai-8B_2bit_cmf"), &e).ok().unwrap();
    assert!(plan.launch == Launch::Download);
    assert_eq!(plan.output, "data/models/Bonsai-8B_2bit_cmf.cmf");
    assert!(plan.args.is_empty());

    let mut p = params("org/Model-GGUF");
    p.name = "mine".to_string();
    let plan = plan_import(&cmf, &p, &e).ok().unwrap();
    assert!(plan.launch == Launch::Gguf);
    assert_eq!(
        plan.args,
        vec!["import-gguf", "org/Model-GGUF", "--quant", "q4", "--output", "data/models/mine.cmf", "--hf-token", "tok"]
    );

    e.converter_exists = true;
    e.converter_abs = Some("/abs/conv.py".to_string());
    let mut p = params("org/m");
    p.mean_bits = Some("2.5".to_string());
    p.nphase = Some(4);
    p.skip_mtp = true;
    let plan = plan_import(&cmf, &p, &e).ok().unwrap();
    assert!(plan.launch == Launch::Python);
    assert_eq!(plan.program, "python3");
    assert_eq!(
        plan.args,
        vec!["/abs/conv.py", "--model", "org/m", "--quant", "Q4_BLOCK", "--output", "data/models/m.cmf",
             "--nphase", "4", "--mean-bits", "2.5", "--skip-mtp"]
    );
}

#[test]
fn validation_comes_before_the_version_probe() {
    let cmf = CmfCfg::defaults("data");
    let mut p = params("  ");
    assert!(!cortiq_gateway::import::wants_o1(&p));
    assert_eq!(cortiq_gateway::import::check_import(&cmf, &p, &env()), Some("empty repo id".to_string()));
    p = params("Qwen/Qwen2.5-0.5B-Instruct");
    p.o1 = Some(" off ".to_string());
    assert!(!cortiq_gateway::import::wants_o1(&p));
    p.o1 = Some("deep4".to_string());
    assert!(cortiq_gateway::import::wants_o1(&p));
    let mut e = env();
    e.cortiq_version = Some("0.1.9".to_string());
    assert_eq!(
        cortiq_gateway::import::check_import(&cmf, &p, &e),
        Some("O(1) attention needs cortiq ≥ 0.2.0 (installed: 0.1.9) — update the runtime in Settings → Local models".to_string())
    );
    e.cortiq_version = None;
    assert_eq!(cortiq_gateway::import::check_import(&cmf, &p, &e), None);
}
