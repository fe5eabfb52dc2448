use fuckace::report::{decode_report_image, image_decode_answer};
use fuckace::system_info::{cpu_model_candidate, cpu_model_or_unknown, webview2_environment_label};

#[test]
fn report_image_decodes_base64() {
    assert_eq!(decode_report_image("aGVsbG8="), Ok(b"hello".to_vec()));
    assert_eq!(decode_report_image(""), Ok(vec![]));
}

#[test]
fn report_image_decode_failure_names_error() {
    let err = decode_report_image("@@@@").unwrap_err();
    assert!(err.starts_with("解码图片失败: "));
    assert_eq!(err, "解码图片失败: Invalid symbol 64, offset 0.");
    assert_eq!(
        image_decode_answer(Err("Invalid padding".to_string())),
        Err("解码图片失败: Invalid padding".to_string())
    );
    assert_eq!(image_decode_answer(Ok(vec![1, 2])), Ok(vec![1, 2]));
}

#[test]
fn cpu_model_choice() {
    assert_eq!(cpu_model_candidate(Some("  Intel(R) Core(TM) i7  ".to_string())), Some("Intel(R) Core(TM) i7".to_string()));
    assert_eq!(cpu_model_candidate(Some("   ".to_string())), None);
    assert_eq!(cpu_model_candidate(None), None);
    assert_eq!(cpu_model_or_unknown(None), "Unknown");
    assert_eq!(cpu_model_or_unknown(Some("AMD".to_string())), "AMD");
}

#[test]
fn webview2_label() {
    assert_eq!(webview2_environment_label(Some("C:\\wv".to_string()), false), "便携环境");
    assert_eq!(webview2_environment_label(Some(String::new()), false), "本地环境");
    assert_eq!(webview2_environment_label(None, true), "便携环境");
    assert_eq!(webview2_environment_label(None, false), "本地环境");
}
