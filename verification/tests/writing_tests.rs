use easy_sgr::CapableWriter;
use easy_sgr::EasyWrite;
use easy_sgr::SGRBuilder;
use easy_sgr::SGRWriter;
use easy_sgr::StandardWriter;

struct StringSink {
    out: String,
}

struct NoFail;

impl CapableWriter for StringSink {
    type Error = NoFail;

    fn write(&mut self, s: &str) -> Result<(), NoFail> {
        self.out.push_str(s);
        Ok(())
    }
}

impl SGRWriter for StringSink {}

struct BoldRed;

impl EasyWrite for BoldRed {
    fn sgr(&self, builder: &mut SGRBuilder) {
        builder.write_code(1);
        builder.write_code(31);
    }
}

#[test]
fn write_to_frames_the_codes() {
    let mut sink = StringSink { out: String::new() };
    let mut builder = SGRBuilder(Vec::new());
    builder.write_code(1);
    builder.write_codes(&[22, 31]);
    assert!(builder.write_to(&mut sink).is_ok());
    assert_eq!(sink.out, "\x1b[1;22;31m");
    assert!(builder.0.is_empty());
}

#[test]
fn write_to_of_nothing_writes_nothing() {
    let mut sink = StringSink { out: String::new() };
    let mut builder = SGRBuilder(Vec::new());
    assert!(builder.write_to(&mut sink).is_ok());
    assert_eq!(sink.out, "");
}

#[test]
fn write_partial_leaves_off_the_framing() {
    let mut sink = StringSink { out: String::new() };
    let mut builder = SGRBuilder(Vec::new());
    builder.write_codes(&[38, 5, 31]);
    assert!(builder.write_partial(&mut sink).is_ok());
    assert_eq!(sink.out, "38;5;31");
    assert!(builder.0.is_empty());
}

#[test]
fn chaining_accumulates_codes() {
    let mut sink = StringSink { out: String::new() };
    let mut builder = SGRBuilder(Vec::new());
    builder.chain_code(0).chain_codes(&[100, 255]).chain_code(9);
    assert!(builder.write_to(&mut sink).is_ok());
    assert_eq!(sink.out, "\x1b[0;100;255;9m");
}

#[test]
fn standard_writer_delegates() {
    let sink = StringSink { out: String::new() };
    let mut writer = StandardWriter::new(sink);
    let mut builder = writer.builder();
    assert!(builder.0.is_empty());
    builder.write_code(4);
    assert!(builder.write_to(&mut writer).is_ok());
    assert!(writer.write_inner("text").is_ok());
    assert_eq!(writer.writer.out, "\x1b[4mtext");
}

#[test]
fn easy_write_goes_through_the_writer() {
    let sink = StringSink { out: String::new() };
    let mut writer = StandardWriter::new(sink);
    assert!(writer.sgr(&BoldRed).is_ok());
    assert_eq!(writer.writer.out, "\x1b[1;31m");
}

struct FailingSink {
    writes_left: usize,
}

impl CapableWriter for FailingSink {
    type Error = ();

    fn write(&mut self, _s: &str) -> Result<(), ()> {
        if self.writes_left == 0 {
            Err(())
        } else {
            self.writes_left -= 1;
            Ok(())
        }
    }
}

#[test]
fn empty_buffer_flushes_cannot_fail() {
    // a sink that refuses every write: the empty buffer never reaches it
    let mut sink = FailingSink { writes_left: 0 };
    let mut builder = SGRBuilder(Vec::new());
    assert!(builder.write_to(&mut sink).is_ok());
    assert!(builder.write_partial(&mut sink).is_ok());
}

#[test]
fn failed_flush_keeps_the_buffer() {
    // the first write (the escape prefix) fails: everything is kept
    let mut sink = FailingSink { writes_left: 0 };
    let mut builder = SGRBuilder(Vec::new());
    builder.write_codes(&[1, 2]);
    assert!(builder.write_to(&mut sink).is_err());
    assert_eq!(builder.0, vec![1, 2]);
    // a partial flush failing mid-way also keeps everything
    let mut sink = FailingSink { writes_left: 1 };
    assert!(builder.write_partial(&mut sink).is_err());
    assert_eq!(builder.0, vec![1, 2]);
}

#[test]
fn failure_on_the_closing_m_leaves_the_buffer_cleared() {
    // "\x1b[", "1", ";", "2" succeed, the closing "m" fails
    let mut sink = FailingSink { writes_left: 4 };
    let mut builder = SGRBuilder(Vec::new());
    builder.write_codes(&[1, 2]);
    assert!(builder.write_to(&mut sink).is_err());
    assert!(builder.0.is_empty());
}
