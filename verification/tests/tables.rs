use gogextract::toc::{entries_of_events, find_payload_entries, EntryKind, HeapEncoding};
use gogextract::xml::XmlEvent;

fn one_file(inner: &str) -> String {
    format!(
        "<?xml version=\"1.0\"?><xar><toc><file id=\"1\"><name>Game.pkg</name>\
         <type>directory</type><file id=\"2\">{inner}</file></file></toc></xar>"
    )
}

#[test]
fn payload_in_a_component_is_found() {
    let xml = one_file(
        "<data><length>100</length><offset>20</offset><size>300</size>\
         <encoding style=\"application/x-gzip\"/></data><type>file</type><name>Payload</name>",
    );
    let found = find_payload_entries(&xml).unwrap();
    assert_eq!(found.len(), 1);
    assert_eq!(found[0].kind, EntryKind::Payload);
    assert_eq!(found[0].full_path, "Game.pkg/Payload");
    assert_eq!(found[0].heap_offset, 20);
    assert_eq!(found[0].heap_length, 100);
    assert_eq!(found[0].encoding, HeapEncoding::Gzip);
}

#[test]
fn extended_attributes_do_not_count() {
    let xml = one_file(
        "<name>Payload</name><ea><name>com.apple.ResourceFork</name><offset>1</offset>\
         <length>2</length><encoding style=\"x-bzip2\"/></ea>\
         <data><offset> 7 </offset><length>9</length>\
         <encoding style=\"application/octet-stream\"></encoding></data>",
    );
    let found = find_payload_entries(&xml).unwrap();
    assert_eq!(found.len(), 1);
    assert_eq!(found[0].full_path, "Game.pkg/Payload");
    assert_eq!((found[0].heap_offset, found[0].heap_length), (7, 9));
    assert_eq!(found[0].encoding, HeapEncoding::Raw);
}

#[test]
fn scripts_are_found_and_other_files_are_not() {
    let xml = "<xar><toc>\
        <file><name>A.pkg</name><type>directory</type>\
        <file><name>Bom</name><data><offset>0</offset><length>1</length></data></file>\
        <file><name>Scripts</name><data><offset>1</offset><length>2</length></data></file>\
        <file><name>Payload</name><type>directory</type>\
        <data><offset>3</offset><length>4</length></data></file>\
        <file><name>Payload</name><data><offset>x</offset><length>4</length></data></file>\
        </file>\
        <file><name>Payload</name><data><offset>5</offset><length>6</length></data></file>\
        </toc></xar>";
    let found = find_payload_entries(xml).unwrap();
    let paths: Vec<&str> = found.iter().map(|e| e.full_path.as_str()).collect();
    assert_eq!(paths, ["A.pkg/Scripts", "Payload"]);
    assert_eq!(found[0].kind, EntryKind::Scripts);
    assert_eq!(found[0].kind.name(), "Scripts");
    assert_eq!(found[1].kind.name(), "Payload");
}

#[test]
fn escapes_in_names_are_undone() {
    let xml = "<toc><file><name>A &amp; B.pkg</name><file><name>Payload</name>\
        <data><offset>0</offset><length>1</length></data></file></file></toc>";
    assert_eq!(find_payload_entries(xml).unwrap()[0].full_path, "A & B.pkg/Payload");
}

#[test]
fn malformed_table_is_refused() {
    let message = find_payload_entries("<toc><file></toc>").unwrap_err();
    assert!(!message.is_empty());
    assert!(find_payload_entries("").unwrap().is_empty());
}

#[test]
fn styles_name_encodings() {
    for (style, encoding) in [
        ("application/x-gzip", HeapEncoding::Gzip),
        ("application/zlib", HeapEncoding::Zlib),
        ("x-zlib", HeapEncoding::Zlib),
        ("application/x-bzip2", HeapEncoding::Bzip2),
        ("application/octet-stream", HeapEncoding::Raw),
        ("application/x-lzma", HeapEncoding::Other),
        ("", HeapEncoding::Other),
        ("gzip octet-stream", HeapEncoding::Gzip),
    ] {
        assert_eq!(HeapEncoding::from_style_attr(style), encoding);
    }
}

#[test]
fn no_events_give_no_entries() {
    let none: Vec<XmlEvent> = Vec::new();
    assert!(entries_of_events(none).is_empty());
}

#[test]
fn file_without_a_name_is_no_entry() {
    let xml = "<file><name>Payload</name><type>directory</type><file><data><offset>1</offset>\
        <length>2</length></data></file></file>";
    assert!(find_payload_entries(xml).unwrap().is_empty());
}
