use ai_desktop_assistant::local::{
    first_usable, join_with_spaces, local_transcript, model_candidates, spoken_lines_of,
    whisper_cli_candidates, whisper_log_transcript, MIN_BINARY_BYTES, NO_LOCAL_TEXT,
};

#[test]
fn first_usable_candidate() {
    assert_eq!(first_usable(&vec![]), None);
    assert_eq!(first_usable(&vec![None, Some(100), Some(100001), Some(5_000_000)]), Some(2));
    assert_eq!(first_usable(&vec![Some(MIN_BINARY_BYTES), None]), None);
    assert_eq!(first_usable(&vec![Some(142_000_000)]), Some(0));
}

#[test]
fn candidate_locations() {
    assert_eq!(
        model_candidates(),
        vec![
            vec!["models", "ggml-base.en.bin"],
            vec!["src-tauri", "models", "ggml-base.en.bin"],
            vec!["ggml-base.en.bin"],
        ]
    );
    let cli = whisper_cli_candidates();
    assert_eq!(cli.len(), 5);
    assert_eq!(cli[1], vec!["bin", "main.exe"]);
    assert_eq!(cli[4], vec!["whisper-cli.exe"]);
}

#[test]
fn log_lines_are_filtered_and_stripped() {
    let stdout = "whisper_init_from_file: loading model\n\
                  \n\
                  [00:00:00.000 --> 00:00:02.500]   Hello everyone.\n\
                  [00:00:02.500 --> 00:00:04.000]  Let's begin.  \r\n\
                  main: processing 'x.wav'\n";
    let stderr = "system_info: n_threads = 4\nggml_backend: cpu\n  GGML_ASSERT: oops\nfailed to allocate buffer\nload_backend: ok\nread_audio_data: ok\nalloc_tensor_range: ok\nplain words";
    assert_eq!(spoken_lines_of(stdout), vec!["Hello everyone.", "Let's begin."]);
    assert_eq!(
        whisper_log_transcript(stdout, stderr),
        Ok("Hello everyone. Let's begin. plain words".to_string())
    );
}

#[test]
fn timestamp_only_lines_vanish() {
    assert_eq!(
        whisper_log_transcript("[00:00:00.000 --> 00:00:01.000]   \n", ""),
        Err(NO_LOCAL_TEXT.to_string())
    );
    // A bracket without an arrow is kept as it is.
    assert_eq!(whisper_log_transcript("[music]", ""), Ok("[music]".to_string()));
    assert_eq!(whisper_log_transcript("", ""), Err("Local Whisper returned no text".to_string()));
}

#[test]
fn transcript_file_comes_first() {
    assert_eq!(local_transcript("  From the file. \n", b"ignored", b""), Ok("From the file.".to_string()));
    assert_eq!(local_transcript("   ", b"[00:00:00.000 --> 00:00:01.000] From logs", b""), Ok("From logs".to_string()));
    assert_eq!(local_transcript("", &[0xff, b'h', b'i'], b""), Ok("\u{fffd}hi".to_string()));
    assert_eq!(local_transcript("", b"", b"whisper_x"), Err(NO_LOCAL_TEXT.to_string()));
}

#[test]
fn joining() {
    assert_eq!(join_with_spaces(&vec![]), "");
    assert_eq!(join_with_spaces(&vec!["a".to_string()]), "a");
    assert_eq!(join_with_spaces(&vec!["a".to_string(), "b c".to_string(), "d".to_string()]), "a b c d");
}
