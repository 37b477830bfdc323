use std::io::{BufRead, Cursor, ErrorKind, Read};
use until_needle::scan::{Fill, Phase, ReadUntilNeedle};
use until_needle::Needle;

/// Drives a scan over a blocking buffered reader.
trait UntilNeedleRead {
    fn read_until_needle(
        &mut self,
        needle: impl Needle,
        before: &mut Vec<u8>,
        matched: &mut Vec<u8>,
    ) -> std::io::Result<usize>;
}

impl<T: BufRead> UntilNeedleRead for T {
    fn read_until_needle(
        &mut self,
        needle: impl Needle,
        before: &mut Vec<u8>,
        matched: &mut Vec<u8>,
    ) -> std::io::Result<usize> {
        let mut scan = ReadUntilNeedle::new(needle);
        loop {
            let step = {
                let fill = match self.fill_buf() {
                    Ok(available) => Fill::Available(available),
                    Err(ref e) if e.kind() == ErrorKind::Interrupted => Fill::Interrupted,
                    Err(e) => Fill::Failed(e),
                };
                scan.step(fill, before, matched)
            };
            self.consume(step.consume);
            match step.phase {
                Phase::Scanning => {}
                Phase::Matched | Phase::ExhaustedNoMatch => return Ok(step.total),
                Phase::Failed(e) => return Err(e),
            }
        }
    }
}

/// A reader that hands out its content chunk by chunk, and can report
/// failures in between.
struct Chunks {
    pending: Vec<std::io::Result<Vec<u8>>>,
    current: Vec<u8>,
    pos: usize,
}

impl Chunks {
    fn new(mut answers: Vec<std::io::Result<Vec<u8>>>) -> Chunks {
        answers.reverse();
        Chunks { pending: answers, current: Vec::new(), pos: 0 }
    }

    fn of(chunks: &[&[u8]]) -> Chunks {
        Chunks::new(chunks.iter().map(|chunk| Ok(chunk.to_vec())).collect())
    }
}

impl BufRead for Chunks {
    fn fill_buf(&mut self) -> std::io::Result<&[u8]> {
        if self.pos >= self.current.len() {
            self.current.clear();
            self.pos = 0;
            match self.pending.pop() {
                Some(Ok(chunk)) => self.current = chunk,
                Some(Err(e)) => return Err(e),
                None => {}
            }
        }
        Ok(&self.current[self.pos..])
    }

    fn consume(&mut self, amount: usize) {
        self.pos += amount;
    }
}

impl Read for Chunks {
    fn read(&mut self, out: &mut [u8]) -> std::io::Result<usize> {
        let available = self.fill_buf()?;
        let amount = available.len().min(out.len());
        out[..amount].copy_from_slice(&available[..amount]);
        self.consume(amount);
        Ok(amount)
    }
}

fn interrupted() -> std::io::Error {
    std::io::Error::new(ErrorKind::Interrupted, "interrupted")
}

#[test]
fn test_bufread() {
    let data = b"hello world";
    let mut cur = Cursor::new(data);
    assert_eq!(cur.fill_buf().unwrap(), data);
    assert_eq!(cur.fill_buf().unwrap(), data);

    let data = Vec::from(b"hello world");
    let mut cur = Cursor::new(data);
    assert_eq!(cur.fill_buf().unwrap(), b"hello world");
    assert_eq!(cur.fill_buf().unwrap(), b"hello world");
    cur.get_mut().extend_from_slice(b"!!!");
    assert_eq!(cur.fill_buf().unwrap(), b"hello world!!!");
}

#[test]
fn io_test_read_until_needle() {
    let data = b"hello world";
    let mut cur = Cursor::new(data);
    let mut before = Vec::new();
    let mut matched = Vec::new();
    assert_eq!(
        cur.read_until_needle(b"hello", &mut before, &mut matched)
            .unwrap(),
        5
    );
    assert_eq!(before, b"");
    assert_eq!(matched, b"hello");
    before.clear();
    matched.clear();
    assert_eq!(
        cur.read_until_needle(b"world", &mut before, &mut matched)
            .unwrap(),
        6
    );
    assert_eq!(before, b" ");
    assert_eq!(matched, b"world");
    before.clear();
    matched.clear();
    assert_eq!(
        cur.read_until_needle(b"foo", &mut before, &mut matched)
            .unwrap(),
        0
    );
    assert_eq!(before, b"");
    assert_eq!(matched, b"");
    cur.set_position(0);
    before.clear();
    matched.clear();
    assert_eq!(
        cur.read_until_needle(b"world", &mut before, &mut matched)
            .unwrap(),
        11
    );
    assert_eq!(before, b"hello ");
    assert_eq!(matched, b"world");
}

#[test]
fn chunks_read_to_end() {
    let mut stream = Chunks::of(&[b"hello", b" wo", b"rld!"]);
    let mut buf = Vec::new();
    stream.read_to_end(&mut buf).unwrap();
    assert_eq!(buf, b"hello world!");
}

#[test]
fn needle_across_chunks() {
    let mut stream = Chunks::of(&[b"hello", b" wo", b"rld!"]);
    let mut before = Vec::new();
    let mut matched = Vec::new();
    let mut buf = Vec::new();
    assert_eq!(
        stream
            .read_until_needle(b"world", &mut before, &mut matched)
            .unwrap(),
        11
    );
    assert_eq!(before, b"hello ");
    assert_eq!(matched, b"world");
    assert_eq!(stream.read_to_end(&mut buf).unwrap(), 1);
    assert_eq!(buf, b"!");
}

#[test]
fn needle_across_chunks_with_more_left() {
    let mut stream = Chunks::of(&[b"hello", b" wo", b"rld!!"]);
    let mut before = Vec::new();
    let mut matched = Vec::new();
    let mut buf = Vec::new();
    assert_eq!(
        stream
            .read_until_needle(b"world", &mut before, &mut matched)
            .unwrap(),
        11
    );
    assert_eq!(before, b"hello ");
    assert_eq!(matched, b"world");
    assert_eq!(stream.read_to_end(&mut buf).unwrap(), 2);
    assert_eq!(buf, b"!!");
}

#[test]
fn fill_after_a_match_yields_what_was_left() {
    let mut cur = Cursor::new(b"hello world!!");
    let mut before = Vec::new();
    let mut matched = Vec::new();
    assert_eq!(
        cur.read_until_needle(b"world", &mut before, &mut matched)
            .unwrap(),
        11
    );
    assert_eq!(cur.fill_buf().unwrap(), b"!!");

    let mut stream = Chunks::of(&[b"ab", b"cdef", b"gh"]);
    assert_eq!(
        stream
            .read_until_needle(b"bc", &mut before, &mut matched)
            .unwrap(),
        3
    );
    assert_eq!(stream.fill_buf().unwrap(), b"def");
}

#[test]
fn fill_after_the_end_yields_nothing() {
    let mut cur = Cursor::new(b"hello world");
    let mut before = Vec::new();
    let mut matched = Vec::new();
    assert_eq!(
        cur.read_until_needle(b"foo", &mut before, &mut matched)
            .unwrap(),
        11
    );
    assert_eq!(cur.fill_buf().unwrap(), b"");
}

#[test]
fn no_match_leaves_matched_as_it_was() {
    let mut stream = Chunks::of(&[b"hello", b" wo", b"rld!"]);
    let mut before = b"kept:".to_vec();
    let mut matched = b"untouched".to_vec();
    assert_eq!(
        stream
            .read_until_needle(b"foo", &mut before, &mut matched)
            .unwrap(),
        12
    );
    assert_eq!(before, b"kept:hello world!");
    assert_eq!(matched, b"untouched");
}

#[test]
fn buffers_are_appended_to() {
    let mut cur = Cursor::new(b"a=1;b=2;c");
    let mut before = Vec::new();
    let mut matched = Vec::new();
    assert_eq!(cur.read_until_needle(b";", &mut before, &mut matched).unwrap(), 4);
    assert_eq!(cur.read_until_needle(b";", &mut before, &mut matched).unwrap(), 4);
    assert_eq!(cur.read_until_needle(b";", &mut before, &mut matched).unwrap(), 1);
    assert_eq!(before, b"a=1b=2c");
    assert_eq!(matched, b";;");
}

#[test]
fn scans_until_the_end_consume_the_whole_source() {
    let content = b"one, two, three, four";
    let mut stream = Chunks::of(&[b"one, t", b"wo", b", three, fo", b"ur"]);
    let mut before = Vec::new();
    let mut matched = Vec::new();
    let mut sum = 0;
    let mut calls = 0;
    loop {
        let held = matched.len();
        sum += stream
            .read_until_needle(b", ", &mut before, &mut matched)
            .unwrap();
        calls += 1;
        if matched.len() == held {
            break;
        }
    }
    assert_eq!(calls, 4);
    assert_eq!(sum, content.len());
    assert_eq!(before, b"onetwothreefour");
    assert_eq!(matched, b", , , ");
}

#[test]
fn empty_pattern_matches_at_once() {
    let mut cur = Cursor::new(b"hello");
    let mut before = Vec::new();
    let mut matched = Vec::new();
    assert_eq!(cur.read_until_needle(b"", &mut before, &mut matched).unwrap(), 0);
    assert_eq!(before, b"");
    assert_eq!(matched, b"");
    assert_eq!(cur.fill_buf().unwrap(), b"hello");
}

#[test]
fn empty_source() {
    let mut cur = Cursor::new(b"");
    let mut before = Vec::new();
    let mut matched = Vec::new();
    assert_eq!(cur.read_until_needle(b"x", &mut before, &mut matched).unwrap(), 0);
    assert_eq!(cur.read_until_needle(b"", &mut before, &mut matched).unwrap(), 0);
    assert_eq!(before, b"");
    assert_eq!(matched, b"");
}

#[test]
fn interruption_is_retried() {
    let mut plain = Chunks::of(&[b"hello", b" wo", b"rld!"]);
    let mut before = Vec::new();
    let mut matched = Vec::new();
    let total = plain
        .read_until_needle(b"world", &mut before, &mut matched)
        .unwrap();

    let mut stream = Chunks::new(vec![
        Err(interrupted()),
        Ok(b"hello".to_vec()),
        Ok(b" wo".to_vec()),
        Ok(b"rld!".to_vec()),
    ]);
    let mut before_other = Vec::new();
    let mut matched_other = Vec::new();
    assert_eq!(
        stream
            .read_until_needle(b"world", &mut before_other, &mut matched_other)
            .unwrap(),
        total
    );
    assert_eq!(total, 11);
    assert_eq!(before_other, before);
    assert_eq!(matched_other, matched);
    assert_eq!(stream.fill_buf().unwrap(), plain.fill_buf().unwrap());
}

#[test]
fn interruption_between_chunks_is_retried() {
    let mut stream = Chunks::new(vec![
        Ok(b"hello".to_vec()),
        Err(interrupted()),
        Err(interrupted()),
        Ok(b" wo".to_vec()),
        Err(interrupted()),
        Ok(b"rld!".to_vec()),
    ]);
    let mut before = Vec::new();
    let mut matched = Vec::new();
    assert_eq!(
        stream
            .read_until_needle(b"world", &mut before, &mut matched)
            .unwrap(),
        11
    );
    assert_eq!(before, b"hello ");
    assert_eq!(matched, b"world");
    assert_eq!(stream.fill_buf().unwrap(), b"!");
}

#[test]
fn failure_is_handed_on() {
    let mut stream = Chunks::new(vec![
        Ok(b"hello".to_vec()),
        Err(std::io::Error::new(ErrorKind::UnexpectedEof, "gone")),
        Ok(b" world".to_vec()),
    ]);
    let mut before = b"b".to_vec();
    let mut matched = b"m".to_vec();
    let failure = stream
        .read_until_needle(b"world", &mut before, &mut matched)
        .unwrap_err();
    assert_eq!(failure.kind(), ErrorKind::UnexpectedEof);
    assert_eq!(before, b"b");
    assert_eq!(matched, b"m");
}

#[test]
fn regex_needle_across_chunks() {
    let regex = regex::bytes::Regex::new(r"\d+;").unwrap();
    let mut stream = Chunks::of(&[b"id=1", b"23", b"4;rest"]);
    let mut before = Vec::new();
    let mut matched = Vec::new();
    assert_eq!(
        stream
            .read_until_needle(regex, &mut before, &mut matched)
            .unwrap(),
        8
    );
    assert_eq!(before, b"id=");
    assert_eq!(matched, b"1234;");
    assert_eq!(stream.fill_buf().unwrap(), b"rest");
}
