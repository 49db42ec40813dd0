use rv32emu::assembler::{
    assemble_and_load, decimal_digits, find_first, get_section_text, replace_bytes, resolve_labels,
    split_at_newlines,
};

fn lines(v: &[&str]) -> Vec<Vec<u8>> {
    v.iter().map(|s| s.as_bytes().to_vec()).collect()
}

#[test]
fn text_section_after_marker() {
    let src = b".data\nx\n.text\nloop: addi x1, x1, 1\nbne x1, x2, loop";
    assert_eq!(
        get_section_text(src),
        Some(lines(&["", "loop: addi x1, x1, 1", "bne x1, x2, loop"]))
    );
}

#[test]
fn whole_source_without_sections() {
    assert_eq!(get_section_text(b"addi x1, x0, 1\n"), Some(lines(&["addi x1, x0, 1", ""])));
    assert_eq!(get_section_text(b""), Some(lines(&[""])));
}

#[test]
fn sections_without_text() {
    assert_eq!(get_section_text(b".section .data\nx: 1"), None);
}

#[test]
fn labels_become_line_numbers() {
    let text = lines(&["", "loop: addi x1, x1, 1", "bne x1, x2, loop"]);
    assert_eq!(
        resolve_labels(&text),
        lines(&["", ": addi x1, x1, 1", "bne x1, x2, 1"])
    );
}

#[test]
fn repeated_label_takes_last_line() {
    let text = lines(&["a: x", "a: y", "use a"]);
    assert_eq!(resolve_labels(&text), lines(&[": x", ": y", "use 1"]));
}

#[test]
fn assemble_front_end() {
    assert_eq!(
        assemble_and_load(b".text\nstart: nop\nj start"),
        Some(lines(&["", ": nop", "j 1"]))
    );
    assert_eq!(assemble_and_load(b".section .bss"), None);
}

#[test]
fn byte_string_helpers() {
    assert_eq!(decimal_digits(0), b"0".to_vec());
    assert_eq!(decimal_digits(1234), b"1234".to_vec());
    assert_eq!(replace_bytes(&b"aaa".to_vec(), &b"aa".to_vec(), &b"b".to_vec()), b"ba".to_vec());
    assert_eq!(find_first(b"ab.text", b".text"), Some(2));
    assert_eq!(find_first(b"ab", b".text"), None);
    assert_eq!(split_at_newlines(b"a\n\nb"), lines(&["a", "", "b"]));
}
