use rainbow_core::signature::{Argument, Signature};
use rainbow_core::typing::{RecordField, Type};

#[test]
fn record_display() {
    let t3 = Type::record_from_map(vec![
        (String::from("foo"), RecordField::new(Type::Num, false)),
        (String::from("Wat"), RecordField::new(Type::list_of(Type::Num), true)),
    ]);
    assert_eq!(t3.to_text(), "[ foo=number Wat?=[ number... ] ]")
}

#[test]
fn inference_of_lists() {}

#[test]
fn type_texts() {
    assert_eq!(Type::Any.to_text(), "any");
    assert_eq!(Type::Never.to_text(), "never");
    assert_eq!(Type::var("A").to_text(), "A");
    assert_eq!(Type::quoted(Type::Bool).to_text(), "{ boolean }");
    assert_eq!(
        Type::block_from_to(vec![Type::Str, Type::Time], Type::Money).to_text(),
        "{ string time => money }"
    );
    assert_eq!(
        Type::record_with_one_field("bar", Type::Num, false).to_text(),
        "[? bar=number ?]"
    );
}

#[test]
fn records_are_equal_whatever_the_order() {
    let a = Type::record_from_iter(vec![
        (String::from("x"), Type::Num),
        (String::from("a"), Type::Str),
    ]);
    let b = Type::record_from_iter(vec![
        (String::from("a"), Type::Str),
        (String::from("x"), Type::Num),
    ]);
    assert_eq!(a, b);
    let c = Type::record_from_iter(vec![
        (String::from("a"), Type::Num),
        (String::from("a"), Type::Str),
        (String::from("x"), Type::Num),
    ]);
    assert_eq!(b, c);
    assert_ne!(a, Type::record_from_iter(vec![(String::from("a"), Type::Str)]));
    assert_eq!(Type::default(), Type::Any);
    assert_eq!(Type::var("v").var_name(), Some(&String::from("v")));
    assert_eq!(Type::Num.var_name(), None);
}

#[test]
fn signature_text_and_lookup() {
    let mut sig = Signature::with_capacity(2);
    sig.add_argument(Argument { name: 3, ty: Type::Num, variadic: false, required: true });
    sig.add_argument(Argument { name: 5, ty: Type::Str, variadic: true, required: false });
    sig.set_return_type(Type::Bool);
    sig.set_total(true);
    assert_eq!(sig.name(), 3);
    assert!(sig.is_total());
    assert_eq!(sig.return_type(), &Type::Bool);
    assert_eq!(sig.arg(5).map(|a| a.variadic), Some(true));
    assert!(sig.arg(4).is_none());
    assert_eq!(sig.args().len(), 2);
    assert_eq!(sig.to_text(), "3: number [5]?: string :: boolean");
}
