//! Command-line processing behaviour.

use earlyboot::boot::cmdline::{option_is_true, process};
use earlyboot::decls::{cmdline_decl, iter, RawDecl, Type, DECL_NONCE};
use earlyboot::util::split_first_str;

fn registry(names: &[&str]) -> Vec<RawDecl> {
    let mut decls = Vec::new();
    for n in names {
        decls.push(cmdline_decl(String::from(*n)));
    }
    decls
}

#[test]
fn process_dispatches_options_in_order() {
    let decls = registry(&["a", "b", "c", "bar"]);
    let calls = process("--a=1 --b --c=x=y foo --bar", &decls);
    assert_eq!(calls.len(), 4);
    assert_eq!(calls[0].option, "a");
    assert_eq!(calls[0].value, "1");
    assert_eq!(calls[1].option, "b");
    assert_eq!(calls[1].value, "");
    assert_eq!(calls[2].option, "c");
    assert_eq!(calls[2].value, "x=y");
    assert_eq!(calls[3].option, "bar");
    assert_eq!(calls[3].value, "");
    for c in &calls {
        assert_ne!(c.option, "foo");
    }
}

#[test]
fn process_empty_cmdline_invokes_nothing() {
    let decls = registry(&["a", "bar"]);
    let calls = process("", &decls);
    assert!(calls.is_empty());
}

#[test]
fn process_ignores_unknown_options() {
    let decls = registry(&["known"]);
    let calls = process("--other=3 plain --known=yes", &decls);
    assert_eq!(calls.len(), 1);
    assert_eq!(calls[0].option, "known");
    assert_eq!(calls[0].value, "yes");
}

#[test]
fn process_invokes_every_matching_declaration() {
    let decls = registry(&["dup", "dup"]);
    let calls = process("--dup=v", &decls);
    assert_eq!(calls.len(), 2);
    assert_eq!(calls[0].value, "v");
    assert_eq!(calls[1].value, "v");
}

#[test]
fn option_is_true_accepts_exactly_the_true_values() {
    for v in ["1", "on", "ON", "true", "TRUE", "enabled", "ENABLED"] {
        assert!(option_is_true(v), "{v} should count as true");
    }
    for v in ["yes", "On ", "", "0", "off", "On", "True", "Enabled", "2"] {
        assert!(!option_is_true(v), "{v} should not count as true");
    }
}

#[test]
fn split_first_str_splits_on_first_separator() {
    assert_eq!(split_first_str("key=value", '='), ("key", "value"));
    assert_eq!(split_first_str("a=b=c", '='), ("a", "b=c"));
    assert_eq!(split_first_str("plain", '='), ("plain", ""));
    assert_eq!(split_first_str("", '='), ("", ""));
    assert_eq!(split_first_str("serial,port=3f8", ','), ("serial", "port=3f8"));
}

#[test]
fn set_retains_the_cmdline() {
    let mut stored: Option<String> = None;
    earlyboot::boot::cmdline::set(&mut stored, "--earlycon=serial");
    assert_eq!(stored.as_deref(), Some("--earlycon=serial"));
}

#[test]
fn declaration_iterator_walks_the_table() {
    let decls = registry(&["one", "two"]);
    assert_eq!(decls[0].nonce, DECL_NONCE);
    let mut it = iter(&decls);
    let mut seen = Vec::new();
    while let Some(d) = it.next() {
        match d {
            Type::CMDLine(c) => seen.push(c.option.clone()),
            Type::SelfTest(_) => {}
        }
    }
    assert_eq!(seen, vec![String::from("one"), String::from("two")]);
}
