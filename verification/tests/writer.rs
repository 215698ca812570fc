use rslog::config::ConfigBuilder;
use rslog::formatter::OutputFormat;
use rslog::level::LogLevel;
use rslog::writer::{render_batch, AsyncWriterConfig, BatchBuffer, LogEntry, Writer};

#[test]
fn writer_entry_formats() {
    let e = LogEntry::new("INFO", "hello", "2026-05-09 10:30:45.123456789");
    assert_eq!(e.format_text(), "[2026-05-09 10:30:45.123456789] [INFO] hello");
    assert_eq!(
        e.format_json(),
        "{\"time\":\"2026-05-09 10:30:45.123456789\",\"level\":\"INFO\",\"message\":\"hello\"}"
    );
}

#[test]
fn writer_batches_render() {
    let entries = vec![LogEntry::new("INFO", "a", "t1"), LogEntry::new("WARN", "b", "t2")];
    assert_eq!(render_batch(&entries, &OutputFormat::Text), "[t1] [INFO] a\n[t2] [WARN] b\n");
    assert_eq!(
        render_batch(&entries, &OutputFormat::Custom("%m".to_string())),
        "[t1] [INFO] a\n[t2] [WARN] b\n"
    );
    assert_eq!(
        render_batch(&entries[..1].to_vec(), &OutputFormat::Json),
        "{\"time\":\"t1\",\"level\":\"INFO\",\"message\":\"a\"}\n"
    );
    assert_eq!(render_batch(&vec![], &OutputFormat::Text), "");
}

#[test]
fn writer_buffer_flushes_full_batches() {
    let mut b = BatchBuffer::new(2, OutputFormat::Text);
    assert_eq!(b.push(LogEntry::new("INFO", "a", "t1")), None);
    assert_eq!(b.len(), 1);
    assert_eq!(b.push(LogEntry::new("INFO", "b", "t2")), Some("[t1] [INFO] a\n[t2] [INFO] b\n".to_string()));
    assert_eq!(b.len(), 0);
    assert_eq!(b.on_timeout(), None);
    assert_eq!(b.push(LogEntry::new("ERROR", "c", "t3")), None);
    assert_eq!(b.on_timeout(), Some("[t3] [ERROR] c\n".to_string()));
    assert_eq!(b.len(), 0);
}

#[test]
fn writer_buffer_flushes_rest_on_stop() {
    let mut b = BatchBuffer::new(5, OutputFormat::Text);
    assert_eq!(b.push(LogEntry::new("INFO", "a", "t1")), None);
    let rest = vec![LogEntry::new("WARN", "b", "t2"), LogEntry::new("ERROR", "c", "t3")];
    assert_eq!(b.on_stop(rest), "[t1] [INFO] a\n[t2] [WARN] b\n[t3] [ERROR] c\n");
    assert_eq!(b.len(), 0);
    assert_eq!(b.on_stop(Vec::new()), "");
}

#[test]
fn writer_async_defaults() {
    let c = AsyncWriterConfig::default();
    assert_eq!(c.channel_capacity, 1000);
    assert_eq!(c.batch_size, 10);
    assert_eq!(c.max_wait_ms, 100);
}

#[test]
fn writer_console_and_entry() {
    let config = ConfigBuilder::new().build();
    let mut w = Writer::new(config);
    assert!(w.is_running());
    let ts = "2026-05-09 10:30:45.123456789";
    let o = w.write_at(LogLevel::Info, "hi", "t0", ts, false);
    assert_eq!(o.console_line, Some("[2026-05-09 10:30:45.123456789] [INFO] hi".to_string()));
    assert_eq!(o.entry.format_text(), "[t0] [INFO] hi");
    let c = w.write_at(LogLevel::Info, "hi", "t0", ts, true);
    assert_eq!(c.console_line, Some("\x1b[32m[2026-05-09 10:30:45.123456789] [INFO] hi\x1b[0m".to_string()));
    w.set_console_colors(false);
    let p = w.write_at(LogLevel::Info, "hi", "t0", ts, true);
    assert_eq!(p.console_line, Some("[2026-05-09 10:30:45.123456789] [INFO] hi".to_string()));
    w.set_console_enabled(false);
    assert_eq!(w.write_at(LogLevel::Info, "hi", "t0", ts, true).console_line, None);
    assert_eq!(w.write(LogLevel::Error, "now", false).console_line, None);
    assert_eq!(w.config().log_dir, "logs");
    w.stop();
    assert!(!w.is_running());
}

#[test]
fn writer_json_console_line() {
    let config = ConfigBuilder::new().output_format(OutputFormat::Json).build();
    let w = Writer::new(config);
    let o = w.write(LogLevel::Warn, "m", false);
    let line = o.console_line.unwrap();
    assert!(line.starts_with("{\"time\":\""));
    assert!(line.ends_with("\",\"level\":\"WARN\",\"message\":\"m\"}"));
    assert!(o.entry.format_text().ends_with("] [WARN] m"));
}
