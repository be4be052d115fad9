use stash_server::config::Config;
use stash_server::log::{
    level_named, log, log_main, opening, start, stop, LevelParseError, LogLevel, Sink,
    QUEUE_CAPACITY,
};

const LEVELS: [LogLevel; 5] =
    [LogLevel::Debug, LogLevel::Info, LogLevel::Warning, LogLevel::Error, LogLevel::Critical];

#[test]
fn level_names_as_written() {
    let names: Vec<&str> = LEVELS.iter().map(|l| (*l).into()).collect();
    assert_eq!(names, vec!["debug", "info", "Warning", "Error", "CRITICAL"]);
}

#[test]
fn levels_are_ordered_by_severity() {
    for (i, a) in LEVELS.iter().enumerate() {
        for (j, b) in LEVELS.iter().enumerate() {
            assert_eq!(a < b, i < j);
            assert_eq!(a >= b, i >= j);
            assert_eq!(a == b, i == j);
        }
        assert_eq!(a.rank() as usize, i);
    }
}

#[test]
fn level_from_word() {
    assert_eq!(LogLevel::try_from("debug"), Ok(LogLevel::Debug));
    assert_eq!(LogLevel::try_from("info"), Ok(LogLevel::Info));
    assert_eq!(LogLevel::try_from("warning"), Ok(LogLevel::Warning));
    assert_eq!(LogLevel::try_from("error"), Ok(LogLevel::Error));
    assert_eq!(LogLevel::try_from("critical"), Ok(LogLevel::Critical));
}

#[test]
fn level_from_word_in_any_letter_case() {
    assert_eq!(LogLevel::try_from("INFO"), Ok(LogLevel::Info));
    assert_eq!(LogLevel::try_from("Warning"), Ok(LogLevel::Warning));
    assert_eq!(LogLevel::try_from("cRiTiCaL"), Ok(LogLevel::Critical));
}

#[test]
fn word_that_names_no_level() {
    assert_eq!(LogLevel::try_from("warn"), Err(LevelParseError("warn".to_string())));
    assert_eq!(LogLevel::try_from(""), Err(LevelParseError(String::new())));
    assert_eq!(LogLevel::try_from(" info"), Err(LevelParseError(" info".to_string())));
    assert_eq!(LogLevel::try_from("LOUD"), Err(LevelParseError("LOUD".to_string())));
}

#[test]
fn level_parse_error_message() {
    assert_eq!(
        LevelParseError("loud".to_string()).message(),
        "\"loud\" is not a valid log level"
    );
}

#[test]
fn record_is_formatted() {
    let w = log_main("2024-01-02 03:04:05", LogLevel::Warning, "disk low", LogLevel::Info, None);
    assert_eq!(w.line, "[2024-01-02 03:04:05] [Warning] disk low\n");
    assert!(w.to_file);
    assert!(!w.to_terminal);
}

#[test]
fn file_gets_what_is_at_least_its_level() {
    for level in LEVELS {
        for min in LEVELS {
            let w = log_main("t", level, "m", min, None);
            assert_eq!(w.to_file, level >= min);
            assert!(!w.to_terminal);
        }
    }
}

#[test]
fn terminal_gets_what_is_at_least_its_level() {
    for level in LEVELS {
        for min in LEVELS {
            let w = log_main("t", level, "m", LogLevel::Critical, Some(min));
            assert_eq!(w.to_terminal, level >= min);
            assert_eq!(w.to_file, level == LogLevel::Critical);
        }
    }
}

#[test]
fn line_of_each_level() {
    assert_eq!(log_main("t", LogLevel::Debug, "m", LogLevel::Debug, None).line, "[t] [debug] m\n");
    assert_eq!(
        log_main("t", LogLevel::Critical, "", LogLevel::Debug, None).line,
        "[t] [CRITICAL] \n"
    );
}

#[test]
fn sink_takes_records_only_while_running() {
    let mut sink = Sink::new();
    assert_eq!(log(&sink, LogLevel::Info, "early"), None);
    assert!(start(&mut sink, true));
    assert_eq!(log(&sink, LogLevel::Info, "hello"), Some((LogLevel::Info, "hello".to_string())));
    assert_eq!(log(&sink, LogLevel::Error, ""), Some((LogLevel::Error, String::new())));
    stop(&mut sink);
    assert_eq!(log(&sink, LogLevel::Info, "late"), None);
    stop(&mut sink);
    assert_eq!(log(&sink, LogLevel::Info, "later"), None);
}

#[test]
fn sink_stays_closed_when_the_log_file_is_held_by_another() {
    let mut sink = Sink::new();
    assert!(!start(&mut sink, false));
    assert_eq!(log(&sink, LogLevel::Critical, "lost"), None);
    assert!(start(&mut sink, true));
    assert!(!start(&mut sink, false));
    assert!(log(&sink, LogLevel::Info, "kept").is_some());
}

#[test]
fn log_file_is_added_to_by_default() {
    let plan = opening(&Config::default());
    assert_eq!(plan.path, "server.log");
    assert!(plan.append);
    assert!(!plan.truncate);
    assert_eq!(plan.file_level, LogLevel::Info);
    assert_eq!(plan.term_level, None);
    assert_eq!(plan.capacity, 100);
    assert_eq!(QUEUE_CAPACITY, 100);
}

#[test]
fn log_file_is_emptied_when_overwritten() {
    let cfg = Config::load("overwritelog true\nlogpath x.log\nloglevel error\ntermloglevel debug")
        .unwrap();
    let plan = opening(&cfg);
    assert!(!plan.append);
    assert!(plan.truncate);
    assert_eq!(plan.path, "x.log");
    assert_eq!(plan.file_level, LogLevel::Error);
    assert_eq!(plan.term_level, Some(LogLevel::Debug));
}

#[test]
fn level_by_its_name_in_lower_case() {
    assert_eq!(level_named("debug"), Some(LogLevel::Debug));
    assert_eq!(level_named("info"), Some(LogLevel::Info));
    assert_eq!(level_named("warning"), Some(LogLevel::Warning));
    assert_eq!(level_named("error"), Some(LogLevel::Error));
    assert_eq!(level_named("critical"), Some(LogLevel::Critical));
    assert_eq!(level_named("Warning"), None);
    assert_eq!(level_named("verbose"), None);
    assert_eq!(level_named(""), None);
}
