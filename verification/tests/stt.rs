use voxmim::stt::engine::{
    set_bins_global, set_engine_mode_server, set_keep_wav_global, set_whisper_timeout, EngineMode, EngineSettings,
};
use voxmim::stt::http::{
    build_multipart, decimal_chars, get_request, inference_text, multipart_content_type, parse_http_body,
    post_request_head, status_ok, text_from_response,
};
use voxmim::stt::server::is_whisper_magic;
use voxmim::stt::wav::{wav_file, wav_header};

#[test]
fn whisper_magic_accepts_lmgg() {
    assert!(is_whisper_magic(b"lmgg\x9a\xca\x00\x00rest"));
}

#[test]
fn whisper_magic_accepts_gguf() {
    assert!(is_whisper_magic(b"GGUF\x01rest"));
}

#[test]
fn whisper_magic_rejects_pytorch_zip() {
    assert!(!is_whisper_magic(b"PK\x03\x04torch-model-data"));
}

#[test]
fn whisper_magic_rejects_short_files() {
    assert!(!is_whisper_magic(b"GGU"));
    assert!(!is_whisper_magic(b""));
}

#[test]
fn engine_mode_from_str() {
    assert_eq!(EngineMode::from_str("server"), EngineMode::Server);
    assert_eq!(EngineMode::from_str("one-shot"), EngineMode::OneShot);
    assert_eq!(EngineMode::from_str("Server"), EngineMode::OneShot);
}

#[test]
fn engine_settings_setters() {
    let mut s = EngineSettings::new();
    assert!(!s.keep_wav && s.server_mode && s.whisper_timeout_secs == 10 && s.bins.is_none());
    set_keep_wav_global(&mut s, true);
    set_whisper_timeout(&mut s, 30);
    set_engine_mode_server(&mut s, false);
    set_bins_global(&mut s, Some("C:\\whisper".to_string()));
    assert!(s.keep_wav && !s.server_mode);
    assert_eq!(s.whisper_timeout_secs, 30);
    assert_eq!(s.bins.as_deref(), Some("C:\\whisper"));
}

fn reference_header(data_len: u32, sample_rate: u32) -> Vec<u8> {
    let br = sample_rate * 2;
    let mut h = Vec::new();
    h.extend(b"RIFF");
    h.extend(&(data_len + 36).to_le_bytes());
    h.extend(b"WAVE");
    h.extend(b"fmt ");
    h.extend(&16u32.to_le_bytes());
    h.extend(&1u16.to_le_bytes());
    h.extend(&1u16.to_le_bytes());
    h.extend(&sample_rate.to_le_bytes());
    h.extend(&br.to_le_bytes());
    h.extend(&2u16.to_le_bytes());
    h.extend(&16u16.to_le_bytes());
    h.extend(b"data");
    h.extend(&data_len.to_le_bytes());
    h
}

#[test]
fn wav_header_layout() {
    let h = wav_header(32000, 16000);
    assert_eq!(h.len(), 44);
    assert_eq!(h, reference_header(32000, 16000));
    assert_eq!(&h[0..4], b"RIFF");
    assert_eq!(&h[40..44], &32000u32.to_le_bytes());
    assert_eq!(wav_header(0x12345678, 44100), reference_header(0x12345678, 44100));
}

#[test]
fn wav_file_appends_pcm() {
    let w = wav_file(&[1, 2, 3, 4], 16000);
    assert_eq!(w.len(), 48);
    assert_eq!(&w[44..], &[1, 2, 3, 4]);
    assert_eq!(&w[..44], &reference_header(4, 16000)[..]);
}

fn reference_multipart(file_data: &[u8], file_name: &str, lang: &str) -> Vec<u8> {
    let boundary = "----VoxMiMFormBoundary";
    let mut body = Vec::new();
    body.extend_from_slice(format!("--{boundary}\r\n").as_bytes());
    body.extend_from_slice(
        format!("Content-Disposition: form-data; name=\"file\"; filename=\"{file_name}\"\r\n").as_bytes(),
    );
    body.extend_from_slice(b"Content-Type: audio/wav\r\n\r\n");
    body.extend_from_slice(file_data);
    body.extend_from_slice(b"\r\n");
    body.extend_from_slice(format!("--{boundary}\r\n").as_bytes());
    body.extend_from_slice(
        format!("Content-Disposition: form-data; name=\"language\"\r\n\r\n{lang}\r\n").as_bytes(),
    );
    body.extend_from_slice(format!("--{boundary}\r\n").as_bytes());
    body.extend_from_slice(b"Content-Disposition: form-data; name=\"response_format\"\r\n\r\njson\r\n");
    body.extend_from_slice(format!("--{boundary}--\r\n").as_bytes());
    body
}

#[test]
fn multipart_matches_the_form_layout() {
    let data = [0u8, 1, 2, 255];
    assert_eq!(build_multipart(&data, "audio.wav", "ru"), reference_multipart(&data, "audio.wav", "ru"));
    assert_eq!(build_multipart(&[], "файл.wav", "en"), reference_multipart(&[], "файл.wav", "en"));
    assert_eq!(multipart_content_type(), "multipart/form-data; boundary=----VoxMiMFormBoundary");
}

#[test]
fn decimal_digits() {
    assert_eq!(decimal_chars(0).iter().collect::<String>(), "0");
    assert_eq!(decimal_chars(9).iter().collect::<String>(), "9");
    assert_eq!(decimal_chars(10).iter().collect::<String>(), "10");
    assert_eq!(decimal_chars(8178).iter().collect::<String>(), "8178");
    assert_eq!(decimal_chars(u64::MAX).iter().collect::<String>(), u64::MAX.to_string());
}

#[test]
fn request_heads() {
    assert_eq!(
        post_request_head("/inference", "text/plain", 123),
        "POST /inference HTTP/1.1\r\nHost: 127.0.0.1:8178\r\nContent-Type: text/plain\r\nContent-Length: 123\r\nConnection: close\r\n\r\n"
    );
    assert_eq!(
        get_request(8178, "/health"),
        "GET /health HTTP/1.1\r\nHost: 127.0.0.1:8178\r\nConnection: close\r\n\r\n"
    );
}

#[test]
fn http_body_after_blank_line() {
    assert_eq!(parse_http_body("HTTP/1.1 200 OK\r\nA: b\r\n\r\nbody\r\n\r\nmore"), "body\r\n\r\nmore");
    assert_eq!(parse_http_body("head\n\nbody"), "body");
    assert_eq!(parse_http_body("no blank line"), "no blank line");
    assert_eq!(parse_http_body("x\r\n\r\n"), "");
}

#[test]
fn status_detection() {
    assert!(status_ok("HTTP/1.1 200 OK\r\n"));
    assert!(status_ok("HTTP/1.1 200 ok\r\n"));
    assert!(!status_ok("HTTP/1.1 500 Internal Server Error\r\n"));
}

#[test]
fn inference_text_reads_the_json_text() {
    let resp = "HTTP/1.1 200 OK\r\nContent-Type: application/json\r\n\r\n{\"text\":\" привет\\n мир \\n\"}";
    assert_eq!(inference_text(resp), Ok("привет мир".to_string()));
    let no_text = "HTTP/1.1 200 OK\r\n\r\n{\"other\":1}";
    assert_eq!(inference_text(no_text), Ok(String::new()));
    let bad_json = "HTTP/1.1 200 OK\r\n\r\nnot json";
    assert_eq!(inference_text(bad_json), Ok(String::new()));
    let err = "HTTP/1.1 500 Internal Server Error\r\n\r\n  failed to load  ";
    assert_eq!(inference_text(err), Err("Server error: failed to load".to_string()));
}

#[test]
fn text_from_response_uses_the_field() {
    let ok = "HTTP/1.1 200 OK\r\n\r\n{}";
    assert_eq!(text_from_response(ok, Some("\n a\nb \n".to_string())), Ok("ab".to_string()));
    assert_eq!(text_from_response(ok, None), Ok(String::new()));
    assert_eq!(text_from_response("HTTP/1.1 404\r\n\r\nnope", Some("x".to_string())), Err("Server error: nope".to_string()));
}

#[test]
fn rpath_references_are_rewritten() {
    let out = "/x/bins/whisper-cli:\n\t@rpath/libwhisper.1.dylib (compatibility version 1.0.0)\n\t/usr/lib/libc++.1.dylib (x)\n\t@rpath/libggml.dylib (y)\n\n";
    let fixes = voxmim::stt::rpath::rpath_fixes(out);
    assert_eq!(
        fixes,
        vec![
            ("@rpath/libwhisper.1.dylib".to_string(), "@loader_path/libwhisper.1.dylib".to_string()),
            ("@rpath/libggml.dylib".to_string(), "@loader_path/libggml.dylib".to_string()),
        ]
    );
    assert!(voxmim::stt::rpath::rpath_fixes("").is_empty());
    assert!(voxmim::stt::rpath::rpath_fixes("@rpat/x\n").is_empty());
}
