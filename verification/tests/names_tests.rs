use rjprof::{
    format_class_signature, format_declaring_class, get_method_name_safe, MethodId, NameTable,
};

#[test]
fn object_signatures_get_display_form() {
    assert_eq!(format_class_signature("Ljava/lang/String;"), "java.lang.String");
    assert_eq!(format_class_signature("Lcom/example/Outer$Inner;"), "com.example.Outer$Inner");
    assert_eq!(format_declaring_class("Ljava/util/List;"), "java.util.List");
}

#[test]
fn array_signatures_are_tagged() {
    assert_eq!(format_class_signature("[I"), "Array: [I");
    assert_eq!(format_class_signature("[Ljava/lang/String;"), "Array: [Ljava/lang/String;");
    // the declaring-class form shows arrays unchanged
    assert_eq!(format_declaring_class("[I"), "[I");
}

#[test]
fn other_signatures_pass_through() {
    assert_eq!(format_class_signature("B"), "B");
    assert_eq!(format_class_signature(""), "");
    assert_eq!(format_class_signature("L;"), "");
}

#[test]
fn method_display_names() {
    assert_eq!(
        get_method_name_safe("java.lang.String", "length"),
        Some(String::from("java.lang.String.length"))
    );
    assert_eq!(get_method_name_safe("<unknown-class>", "length"), None);
    assert_eq!(get_method_name_safe("java.lang.String", "<unknown>"), None);
}

#[test]
fn name_table_insert_and_get() {
    let mut t = NameTable::new();
    assert_eq!(t.get(MethodId(1)), None);
    t.insert(MethodId(1), String::from("A.f"));
    t.insert(MethodId(2), String::from("B.g"));
    assert_eq!(t.get(MethodId(1)), Some(String::from("A.f")));
    assert_eq!(t.get(MethodId(2)), Some(String::from("B.g")));
    // a second insert replaces the record
    t.insert(MethodId(1), String::from("A.h"));
    assert_eq!(t.get(MethodId(1)), Some(String::from("A.h")));
    assert_eq!(t.entries.len(), 2);
}
