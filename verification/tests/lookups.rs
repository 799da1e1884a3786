use kestrel_execution_graph_lowering::expr::{
    find_field_info, find_protocol_for_extension_method, ConformanceEntry, FieldEntry, MemberEntry,
};
use kestrel_execution_graph_lowering::sem::{SymbolId, SymbolKind};

fn field(name: &str, id: u64, is_computed: bool) -> FieldEntry {
    FieldEntry { name: name.to_string(), field_id: SymbolId(id), is_computed }
}

fn member(kind: SymbolKind, name: &str) -> MemberEntry {
    MemberEntry { kind, name: name.to_string() }
}

#[test]
fn fields_are_found_by_name() {
    let fields = vec![field("x", 1, false), field("area", 2, true), field("x", 3, true)];
    assert_eq!(find_field_info(&fields, "x"), Some((SymbolId(1), false)));
    assert_eq!(find_field_info(&fields, "area"), Some((SymbolId(2), true)));
    assert_eq!(find_field_info(&fields, "y"), None);
    assert_eq!(find_field_info(&Vec::new(), "x"), None);
}

#[test]
fn extension_methods_find_their_protocol() {
    let conformances = vec![
        ConformanceEntry { is_protocol: false, members: vec![member(SymbolKind::Function, "less")] },
        ConformanceEntry {
            is_protocol: true,
            members: vec![member(SymbolKind::Field, "less"), member(SymbolKind::Function, "equal")],
        },
        ConformanceEntry { is_protocol: true, members: vec![member(SymbolKind::Function, "less")] },
        ConformanceEntry { is_protocol: true, members: vec![member(SymbolKind::Function, "less")] },
    ];
    assert_eq!(find_protocol_for_extension_method(Some(&conformances), "less"), Some(2));
    assert_eq!(find_protocol_for_extension_method(Some(&conformances), "equal"), Some(1));
    assert_eq!(find_protocol_for_extension_method(Some(&conformances), "greater"), None);
    assert_eq!(find_protocol_for_extension_method(None, "less"), None);
}
