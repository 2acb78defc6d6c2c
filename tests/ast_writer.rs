use move_bytecode_verifier::ast_writer::{AstDebug, AstWriter, DisplayWrapper};

struct Leaf(&'static str, &'static str);

impl AstDebug for Leaf {
    fn ast_debug(&self, w: &mut AstWriter) {
        w.annotate_gen(|w| w.write(self.0), &self.1, |w, t| w.write(t));
    }
}

#[test]
fn write_and_new_line() {
    let mut w = AstWriter::normal();
    assert!(!w.is_verbose());
    w.write("a");
    w.write("b");
    w.writeln("c");
    w.write("d");
    assert_eq!(w.cur(), "d");
    assert_eq!(w.render(), "abc\nd\n");
}

#[test]
fn block_indents_by_four() {
    let mut w = AstWriter::normal();
    w.write("fun f()");
    w.block(|w| {
        w.write("x");
        w.new_line();
        w.write("y");
    });
    assert_eq!(w.render(), "fun f() {\n    x\n    y\n}\n");
}

#[test]
fn indent_restores_margin() {
    let mut w = AstWriter::normal();
    w.indent(2, |w| w.write("in"));
    w.write("out");
    assert_eq!(w.render(), "\n  in\nout\n");
}

#[test]
fn comma_and_semicolon_lists() {
    let mut w = AstWriter::normal();
    w.comma(vec!["a", "b", "c"], |w, s| w.write(s));
    assert_eq!(w.render(), "a, b, c\n");
    let mut w = AstWriter::normal();
    w.semicolon(vec!["a", "b"], |w, s| w.write(s));
    assert_eq!(w.render(), "a;\nb\n");
    let mut w = AstWriter::normal();
    w.list(vec!["a", "b", "c"], " +", |w, s| {
        w.write(s);
        s == "a"
    });
    assert_eq!(w.render(), "a +\nb +c\n");
    let mut w = AstWriter::normal();
    w.comma(Vec::<&str>::new(), |w, s| w.write(s));
    assert_eq!(w.render(), "\n");
}

#[test]
fn annotations_only_when_verbose() {
    let leaf = Leaf("x", "u64");
    assert_eq!(DisplayWrapper(&leaf, false).render(), "x\n");
    assert_eq!(DisplayWrapper(&leaf, true).render(), "(x: u64)\n");
    let mut w = AstWriter::verbose();
    assert!(w.is_verbose());
    w.annotate(|w| w.write("y"), &leaf);
    assert_eq!(w.render(), "(y: (x: u64))\n");
}

#[test]
fn boxed_and_borrowed_trees_print_alike() {
    let boxed = Box::new(Leaf("b", "bool"));
    assert_eq!(DisplayWrapper(&boxed, true).render(), "(b: bool)\n");
    let leaf = Leaf("r", "u8");
    let borrowed = &leaf;
    assert_eq!(DisplayWrapper(&borrowed, false).render(), "r\n");
}
