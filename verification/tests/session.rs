use alekscypher::googol::padded_len_for;
use alekscypher::naming::{container_extension, decrypted_extension};
use alekscypher::session::{
    calibration_report, job_report, padding_label, padding_name, AppState, Operation, Progress,
    TaskResult, Tone,
};
use alekscypher::text::{
    char_is_white_space, contains_text, decimal_text, find_last_word, first_chars, parse_u64,
};
use std::path::PathBuf;

fn task(message: &str, preview: &str) -> Result<TaskResult, String> {
    Ok(TaskResult { message: message.to_owned(), preview: preview.to_owned() })
}

// ---- text

#[test]
fn white_space_is_that_of_the_standard_library() {
    for code in 0..=0x10FFFFu32 {
        if let Some(c) = char::from_u32(code) {
            assert_eq!(char_is_white_space(c), c.is_whitespace());
        }
    }
}

#[test]
fn containment() {
    for (whole, part) in [
        ("", ""),
        ("abc", ""),
        ("abc", "abc"),
        ("abc", "bc"),
        ("abc", "bd"),
        ("ab", "abc"),
        ("aaab", "aab"),
        ("Расшифровано", "шифр"),
        ("Расшифровано", "цифр"),
    ] {
        assert_eq!(contains_text(whole, part), whole.contains(part));
    }
}

#[test]
fn last_words() {
    for text in [
        "",
        "   ",
        "one",
        "one two",
        "one two  ",
        "  one\ttwo\nthree",
        "слово\u{a0}шаг\u{3000}",
        "a\u{200b}b",
    ] {
        assert_eq!(find_last_word(text), text.split_whitespace().last());
    }
}

#[test]
fn numbers_are_read_as_the_standard_library_does() {
    for text in [
        "",
        "0",
        "7",
        "007",
        "+7",
        "+",
        "++7",
        "-7",
        "7 ",
        " 7",
        "7x",
        "1_000",
        "18446744073709551615",
        "18446744073709551616",
        "18446744073709551620",
        "000000000000000000000000000000000001",
        "99999999999999999999999999999999999",
        "99999999999999999999999999999999999x",
        "٣",
        "steps",
    ] {
        assert_eq!(parse_u64(text), text.parse::<u64>().ok());
    }
}

#[test]
fn numbers_are_written_and_read_back() {
    for n in [0u64, 1, 9, 10, 99, 100, 10_000_000, 123_456_789, u64::MAX] {
        assert_eq!(decimal_text(n), n.to_string());
        assert_eq!(parse_u64(&decimal_text(n)), Some(n));
    }
}

#[test]
fn starts_of_texts() {
    assert_eq!(first_chars("привет", 3), "при");
    assert_eq!(first_chars("привет", 6), "привет");
    assert_eq!(first_chars("привет", 60), "привет");
    assert_eq!(first_chars("", 3), "");
    assert_eq!(first_chars("abc", 0), "");
}

// ---- the window's state

#[test]
fn initial_state() {
    let state = AppState::default();
    assert!(state.operation == Operation::Encrypt);
    assert!(state.file_path.is_none());
    assert_eq!(state.password, "");
    assert_eq!(state.status, "Calibrating Rayo machine...");
    assert_eq!(state.status_tone, Tone::Working);
    assert_eq!(state.preview, "");
    assert_eq!(state.progress, Progress::Idle);
    assert_eq!(state.padding_level, 3);
    assert!(state.anti_replay);
    assert_eq!(state.rayo_steps, 10_000_000);
    assert!(!state.calibration_done);
    assert!(state.needs_calibration());
    assert!(!state.can_start());
}

#[test]
fn calibration_reports() {
    let report = calibration_report(123_456_789);
    assert_eq!(report.message, "Rayo calibrated: 123456789 steps");
    assert_eq!(report.preview, "");
    let mut state = AppState::default();
    state.apply_result(Ok(report));
    assert!(state.calibration_done);
    assert!(!state.needs_calibration());
    assert_eq!(state.rayo_steps, 10_000_000);
    assert_eq!(state.status, "Rayo calibrated: 123456789 steps");
    assert_eq!(state.status_tone, Tone::Success);
    assert_eq!(state.progress, Progress::Done);
}

#[test]
fn steps_at_the_end_of_a_message() {
    let mut state = AppState::default();
    state.apply_result(task("Rayo calibrated to 77", ""));
    assert_eq!(state.rayo_steps, 77);
    state.apply_result(task("something else 88", ""));
    assert_eq!(state.rayo_steps, 77);
    state.apply_result(task("99 Rayo calibrated", ""));
    assert_eq!(state.rayo_steps, 10_000_000);
    assert!(state.calibration_done);
}

#[test]
fn successes_and_failures() {
    let mut state = AppState::default();
    state.apply_result(task("✔ done", "first lines"));
    assert!(!state.calibration_done);
    assert_eq!(state.preview, "first lines");
    state.apply_result(task("✔ again", ""));
    assert_eq!(state.preview, "first lines");
    assert_eq!(state.status, "✔ again");
    state.apply_result(Err("❌ failed".to_owned()));
    assert_eq!(state.status, "❌ failed");
    assert_eq!(state.status_tone, Tone::Failure);
    assert_eq!(state.preview, "");
    assert_eq!(state.progress, Progress::Idle);
}

#[test]
fn calibration_is_kept() {
    let mut state = AppState::default();
    state.apply_result(Ok(calibration_report(5)));
    state.apply_result(Err("failed".to_owned()));
    assert!(state.calibration_done);
    state.apply_result(task("done", ""));
    assert!(state.calibration_done);
    state.start_job();
    assert!(state.calibration_done);
}

#[test]
fn choices_are_kept() {
    let mut state = AppState::default();
    state.operation = Operation::Decrypt;
    state.file_path = Some(PathBuf::from("a.acyph"));
    state.padding_level = 2;
    state.anti_replay = false;
    state.apply_result(Ok(calibration_report(5)));
    state.apply_result(Err("failed".to_owned()));
    state.start_job();
    assert!(state.operation == Operation::Decrypt);
    assert_eq!(state.file_path, Some(PathBuf::from("a.acyph")));
    assert_eq!(state.padding_level, 2);
    assert!(!state.anti_replay);
}

#[test]
fn starting_needs_everything() {
    for file in [false, true] {
        for password in ["", "pw"] {
            for calibrated in [false, true] {
                let mut state = AppState::default();
                if file {
                    state.file_path = Some(PathBuf::from("a.txt"));
                }
                state.password = password.to_owned();
                state.calibration_done = calibrated;
                assert_eq!(state.can_start(), file && password == "pw" && calibrated);
            }
        }
    }
}

#[test]
fn jobs_take_the_password() {
    let mut state = AppState::default();
    state.operation = Operation::Decrypt;
    state.file_path = Some(PathBuf::from("a.acyph"));
    state.password = "пароль".to_owned();
    state.preview = "old".to_owned();
    state.anti_replay = false;
    state.padding_level = 1;
    state.rayo_steps = 42;
    let job = state.start_job();
    assert!(job.operation == Operation::Decrypt);
    assert_eq!(job.password, "пароль".as_bytes());
    assert!(!job.anti_replay);
    assert_eq!(job.padding_level, 1);
    assert_eq!(job.rayo_steps, 42);
    assert_eq!(state.password, "");
    assert_eq!(state.status, "⚡ Deriving key with Rayo machine...");
    assert_eq!(state.status_tone, Tone::Working);
    assert_eq!(state.progress, Progress::Running);
    assert_eq!(state.preview, "old");
    assert_eq!(state.file_path, Some(PathBuf::from("a.acyph")));
}

#[test]
fn reports_of_jobs() {
    let sealed = job_report(Operation::Encrypt, "/tmp/a.acyph", Ok("ignored")).ok().unwrap();
    assert_eq!(sealed.message, "✔ Зашифровано: /tmp/a.acyph");
    assert_eq!(sealed.preview, "");
    let long: String = "я".repeat(201);
    let opened = job_report(Operation::Decrypt, "/tmp/a", Ok(&long)).ok().unwrap();
    assert_eq!(opened.message, "✔ Расшифровано: /tmp/a");
    assert_eq!(opened.preview, "я".repeat(200));
    for operation in [Operation::Encrypt, Operation::Decrypt] {
        assert_eq!(
            job_report(operation, "/tmp/a", Err("no key")).err().unwrap(),
            "❌ Ошибка: no key"
        );
    }
}

#[test]
fn padding_labels_name_the_sizes() {
    for (level, label, name, smallest, largest) in [
        (1u8, "Стандартное (64K-8M)", "Стандартное", 64usize << 10, 8usize << 20),
        (2, "Параноидальное (1M-128M)", "Параноидальное", 1 << 20, 128 << 20),
        (3, "Экономичное (16K-2M)", "Экономичное", 16 << 10, 2 << 20),
    ] {
        assert_eq!(padding_label(level), label);
        assert_eq!(padding_name(level), name);
        assert_eq!(padded_len_for(0, level, 1), smallest);
        assert_eq!(padded_len_for(7, level, 1), largest);
    }
    for level in [0u8, 4, 255] {
        assert_eq!(padding_label(level), "Отключено");
        assert_eq!(padding_name(level), "Отключено");
    }
}

// ---- file names

#[test]
fn extensions() {
    assert_eq!(container_extension(None), Some("acyph"));
    assert_eq!(container_extension(Some("txt")), Some("acyph"));
    assert_eq!(container_extension(Some("ACYPH")), Some("acyph"));
    assert_eq!(container_extension(Some("acyph")), None);
    assert_eq!(decrypted_extension(Some("acyph")), "");
    assert_eq!(decrypted_extension(Some("txt")), "decrypted");
    assert_eq!(decrypted_extension(Some("")), "decrypted");
    assert_eq!(decrypted_extension(None), "decrypted");
}
