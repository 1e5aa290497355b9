use sar::adaptor::{Demand, StreamAdaptor};
use sar::index::index_text;
use sar::record::{Item, Origin, Record};
use sar::select::{resolve, ResolveError};

fn line(path: &str, line_number: usize, text: &str) -> Item {
    Item::Line(Record {
        source_path: path.to_string(),
        line_number,
        text: text.to_string(),
        origin: Origin::Plain,
    })
}

fn read_all(adaptor: &mut StreamAdaptor, chunk: usize) -> Vec<u8> {
    let mut out = Vec::new();
    let mut buf = vec![0u8; chunk];
    loop {
        let n = adaptor.read(&mut buf);
        if n == 0 {
            return out;
        }
        out.extend_from_slice(&buf[..n]);
    }
}

fn sample_items() -> Vec<Item> {
    vec![
        line("/notes/a.txt", 0, "first"),
        Item::opaque("/notes/scan.pdf"),
        line("/notes/b.md", 41, "gr\u{fc}n \u{20ac}"),
        line("/notes/a.txt", 7, "x"),
        Item::opaque("/notes/\u{fc}ber.bin"),
    ]
}

fn sample_stream() -> Vec<u8> {
    "/notes/a.txt:1:first\n/notes/scan.pdf\n/notes/b.md:42:gr\u{fc}n \u{20ac}\n/notes/a.txt:8:x\n/notes/\u{fc}ber.bin\n"
        .as_bytes()
        .to_vec()
}

#[test]
fn test_adaptor() {
    let mut adaptor = StreamAdaptor::new();

    adaptor.accept(line("/tmp/blub.txt", 10, "foo bar"));

    let mut buf = vec![0u8; 256];
    assert_eq!(25, adaptor.read(&mut buf));
    assert_eq!(&buf[..25], b"/tmp/blub.txt:11:foo bar\n");

    adaptor.accept(line("/tmp/blub1.txt", 10, "foo bar blub"));
    adaptor.close();

    assert_eq!(31, adaptor.read(&mut buf));
    assert_eq!(&buf[..31], b"/tmp/blub1.txt:11:foo bar blub\n");

    assert_eq!(0, adaptor.read(&mut buf));
    assert_eq!(0, adaptor.read(&mut buf));
    assert_eq!(0, adaptor.read(&mut buf));
    assert_eq!(0, adaptor.read(&mut buf));
    assert_eq!(0, adaptor.read(&mut buf));
}

#[test]
fn stream_is_the_concatenation_of_the_wire_lines() {
    let mut adaptor = StreamAdaptor::new();
    for item in sample_items() {
        adaptor.accept(item);
    }
    adaptor.close();
    assert_eq!(read_all(&mut adaptor, 4096), sample_stream());
    let mut expected = Vec::new();
    for item in sample_items() {
        expected.extend(item.wire_line());
    }
    assert_eq!(expected, sample_stream());
}

#[test]
fn every_position_resolves_to_the_item_enqueued_there() {
    let items = sample_items();
    for index in 0..items.len() {
        let mut adaptor = StreamAdaptor::new();
        for item in sample_items() {
            adaptor.accept(item);
        }
        adaptor.close();
        read_all(&mut adaptor, 16);
        assert_eq!(resolve(adaptor.into_mirror(), index), Ok(items[index].clone()));
    }
}

#[test]
fn small_reads_give_the_same_bytes_as_one_large_read() {
    for chunk in [1usize, 2, 3, 5, 7, 16, 31, 1000] {
        let mut adaptor = StreamAdaptor::new();
        for item in sample_items() {
            adaptor.accept(item);
        }
        adaptor.close();
        assert_eq!(read_all(&mut adaptor, chunk), sample_stream(), "chunk {}", chunk);
    }
}

#[test]
fn reads_of_changing_size_give_the_same_bytes() {
    let mut adaptor = StreamAdaptor::new();
    for item in sample_items() {
        adaptor.accept(item);
    }
    let mut out = Vec::new();
    let mut size = 1;
    loop {
        let mut buf = vec![0u8; size];
        let n = adaptor.read(&mut buf);
        if n == 0 {
            break;
        }
        out.extend_from_slice(&buf[..n]);
        size = size % 5 + 1;
    }
    assert_eq!(out, sample_stream());
}

#[test]
fn reads_between_arrivals_give_the_same_bytes() {
    let mut adaptor = StreamAdaptor::new();
    let mut out = Vec::new();
    for item in sample_items() {
        adaptor.accept(item);
        let mut buf = [0u8; 9];
        let n = adaptor.read(&mut buf);
        out.extend_from_slice(&buf[..n]);
    }
    adaptor.close();
    out.extend(read_all(&mut adaptor, 9));
    assert_eq!(out, sample_stream());
    assert_eq!(adaptor.into_mirror(), sample_items());
}

#[test]
fn read_leaves_the_rest_of_the_buffer_alone() {
    let mut adaptor = StreamAdaptor::new();
    adaptor.accept(Item::opaque("/ab"));
    let mut buf = [0xeeu8; 8];
    assert_eq!(adaptor.read(&mut buf), 4);
    assert_eq!(buf, [b'/', b'a', b'b', b'\n', 0xee, 0xee, 0xee, 0xee]);
    assert_eq!(adaptor.read(&mut buf), 0);
    assert_eq!(buf, [b'/', b'a', b'b', b'\n', 0xee, 0xee, 0xee, 0xee]);
}

#[test]
fn read_into_nothing_takes_nothing() {
    let mut adaptor = StreamAdaptor::new();
    adaptor.accept(Item::opaque("/ab"));
    let mut none: [u8; 0] = [];
    assert_eq!(adaptor.read(&mut none), 0);
    assert_eq!(adaptor.peek_available(), b"/ab\n");
}

#[test]
fn peek_and_advance() {
    let mut adaptor = StreamAdaptor::new();
    assert_eq!(adaptor.peek_available(), b"");
    adaptor.accept(Item::opaque("/ab"));
    adaptor.accept(Item::opaque("/cd"));
    assert_eq!(adaptor.peek_available(), b"/ab\n/cd\n");
    adaptor.advance(3);
    assert_eq!(adaptor.peek_available(), b"\n/cd\n");
    adaptor.advance(0);
    assert_eq!(adaptor.peek_available(), b"\n/cd\n");
    adaptor.advance(100);
    assert_eq!(adaptor.peek_available(), b"");
    adaptor.accept(Item::opaque("/ef"));
    assert_eq!(adaptor.peek_available(), b"/ef\n");
    assert_eq!(adaptor.into_mirror().len(), 3);
}

#[test]
fn demand_follows_the_queue() {
    let mut adaptor = StreamAdaptor::new();
    assert_eq!(adaptor.demand(), Demand::AwaitItem);
    adaptor.accept(Item::opaque("/ab"));
    assert_eq!(adaptor.demand(), Demand::PollQueue);
    adaptor.accept(Item::opaque("/cd"));
    assert_eq!(adaptor.demand(), Demand::PollQueue);
    adaptor.queue_empty();
    assert_eq!(adaptor.demand(), Demand::Ready);
    let mut buf = [0u8; 5];
    assert_eq!(adaptor.read(&mut buf), 5);
    assert_eq!(adaptor.demand(), Demand::Ready);
    assert_eq!(adaptor.read(&mut buf), 3);
    assert_eq!(adaptor.demand(), Demand::AwaitItem);
    adaptor.close();
    assert_eq!(adaptor.demand(), Demand::EndOfStream);
    assert_eq!(adaptor.read(&mut buf), 0);
    assert_eq!(adaptor.demand(), Demand::EndOfStream);
}

#[test]
fn closing_with_bytes_left_still_serves_them() {
    let mut adaptor = StreamAdaptor::new();
    adaptor.accept(Item::opaque("/ab"));
    adaptor.close();
    assert_eq!(adaptor.demand(), Demand::Ready);
    assert_eq!(read_all(&mut adaptor, 3), b"/ab\n".to_vec());
    assert_eq!(adaptor.demand(), Demand::EndOfStream);
}

#[test]
fn fresh_adaptor_has_an_empty_mirror() {
    let adaptor = StreamAdaptor::new();
    assert_eq!(adaptor.into_mirror(), Vec::new());
    assert_eq!(
        resolve(StreamAdaptor::new().into_mirror(), 0),
        Err(ResolveError::IndexOutOfRange { index: 0, available: 0 })
    );
}

#[test]
fn three_files_of_one_line_each() {
    // The order in which the files arrive is the workers' business: whatever
    // it is, the line at a position and the item resolved there agree.
    let files = [("/n/a.txt", "A"), ("/n/b.txt", "B"), ("/n/c.txt", "C")];
    let arrivals = [[0, 1, 2], [0, 2, 1], [1, 0, 2], [1, 2, 0], [2, 0, 1], [2, 1, 0]];
    for order in arrivals {
        let mut adaptor = StreamAdaptor::new();
        for file in order {
            let (path, content) = files[file];
            for item in index_text(path, None, content.as_bytes()).unwrap() {
                adaptor.accept(item);
            }
        }
        adaptor.close();
        let stream = String::from_utf8(read_all(&mut adaptor, 7)).unwrap();
        let lines: Vec<&str> = stream.lines().collect();
        assert_eq!(lines.len(), 3);
        assert_eq!(stream.matches('\n').count(), 3);
        match resolve(adaptor.into_mirror(), 1) {
            Ok(Item::Line(record)) => {
                assert_eq!(record.text, files[order[1]].1);
                assert_eq!(lines[1], format!("{}:1:{}", record.source_path, record.text));
                assert_eq!(record.source_path, files[order[1]].0);
            }
            other => panic!("no line at position 1: {:?}", other),
        }
    }
}
