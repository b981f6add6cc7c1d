use posixutils::buffer::{as_chunks, Buffer, Chunk};

#[test]
fn chunk_counts_lines_and_text() {
    let mut c = Chunk::new();
    assert_eq!(c.len(), 0);
    c.push_line("one\n");
    c.push_line("two\n");
    assert_eq!(c.len(), 8);
    assert_eq!(c.lines, 2);
}

#[test]
fn chunk_edges() {
    let mut c = Chunk::new();
    c.push_line("x\n");
    c.first_line = 3;
    c.last_line = 5;
    assert!(c.is_edge(3));
    assert!(c.is_edge(5));
    assert!(!c.is_edge(4));
}

#[test]
fn as_chunks_packs_all_lines() {
    let lines = vec!["a\n".to_string(), "b\n".to_string(), "c\n".to_string()];
    let chunks = as_chunks(&lines);
    assert_eq!(chunks.len(), 1);
    assert_eq!(chunks[0].lines, 3);
    assert_eq!(chunks[0].data, "a\nb\nc\n".to_string());
}

#[test]
fn buffer_append_renumbers() {
    let mut b = Buffer::new();
    let mut c1 = Chunk::new();
    c1.push_line("one\n");
    c1.push_line("two\n");
    b.append(c1);
    assert_eq!(b.cur_line, 1);
    assert_eq!(b.last_line, 2);
    assert_eq!(b.chunks[0].first_line, 1);
    assert_eq!(b.chunks[0].last_line, 2);
    let mut c2 = Chunk::new();
    c2.push_line("three\n");
    b.append(c2);
    assert_eq!(b.last_line, 3);
    assert_eq!(b.chunks[1].first_line, 3);
    assert_eq!(b.chunks[1].last_line, 3);
}

#[test]
fn buffer_insert_at_head_shifts_existing_lines() {
    let mut b = Buffer::new();
    let mut tail = Chunk::new();
    tail.push_line("old\n");
    b.append(tail);
    let mut new_chunk = Chunk::new();
    new_chunk.push_line("new1\n");
    new_chunk.push_line("new2\n");
    b.insert(1, true, &[new_chunk]);
    assert_eq!(b.last_line, 3);
    assert_eq!(b.chunks[0].first_line, 1);
    assert_eq!(b.chunks[0].last_line, 2);
    assert_eq!(b.chunks[1].first_line, 3);
    assert_eq!(b.chunks[1].last_line, 3);
}

#[test]
fn buffer_insert_at_tail_appends() {
    let mut b = Buffer::new();
    let mut first = Chunk::new();
    first.push_line("one\n");
    b.append(first);
    let mut more = Chunk::new();
    more.push_line("two\n");
    b.insert(b.last_line, false, &[more]);
    assert_eq!(b.last_line, 2);
    assert_eq!(b.chunks[1].first_line, 2);
}

#[test]
fn set_cur_line_moves_the_cursor() {
    let mut b = Buffer::new();
    let mut c = Chunk::new();
    c.push_line("a\n");
    c.push_line("b\n");
    b.append(c);
    b.set_cur_line(2);
    assert_eq!(b.cur_line, 2);
}
