//! A line buffer for pretty-printing syntax trees, with indentation and an
//! optional verbose mode that shows annotations.
use vstd::prelude::*;
use vstd::string::StringExecFns;

verus! {

/// `n` spaces.
pub open spec fn spaces(n: nat) -> Seq<char> {
    Seq::new(n, |i: int| ' ')
}

/// The lines after writing `s` at margin `margin`: text goes on the last
/// line, and a line still empty is first indented by the margin.
pub open spec fn written(lines: Seq<Seq<char>>, margin: nat, s: Seq<char>) -> Seq<Seq<char>> {
    let prefix = if lines.len() == 0 { lines } else { lines.drop_last() };
    let cur = if lines.len() == 0 { Seq::<char>::empty() } else { lines.last() };
    prefix.push(if cur.len() == 0 { spaces(margin) + s } else { cur + s })
}

/// Something that can print itself to an `AstWriter`.
pub trait AstDebug {
    fn ast_debug(&self, w: &mut AstWriter);
}

impl<T: AstDebug> AstDebug for Box<T> {
    fn ast_debug(&self, w: &mut AstWriter) {
        (**self).ast_debug(w)
    }
}

impl<'a, T: AstDebug> AstDebug for &'a T {
    fn ast_debug(&self, w: &mut AstWriter) {
        (**self).ast_debug(w)
    }
}

impl<'a, T: AstDebug> AstDebug for &'a mut T {
    fn ast_debug(&self, w: &mut AstWriter) {
        (**self).ast_debug(w)
    }
}

/// The lines printed so far, the current indentation and the mode.
pub struct AstWriter {
    verbose: bool,
    margin: usize,
    lines: Vec<String>,
}

impl AstWriter {
    pub closed spec fn verbose_of(&self) -> bool {
        self.verbose
    }

    pub closed spec fn margin_of(&self) -> nat {
        self.margin as nat
    }

    /// The lines, the last one being the line being written.
    pub closed spec fn lines_of(&self) -> Seq<Seq<char>> {
        self.lines@.map_values(|l: String| l@)
    }

    /// A writer with one empty line and no indentation.
    pub fn new(verbose: bool) -> (r: Self)
        ensures
            r.verbose_of() == verbose,
            r.margin_of() == 0,
            r.lines_of() == seq![Seq::<char>::empty()],
    {
        let r = AstWriter { verbose, margin: 0, lines: vec![String::new()] };
        assert(r.lines_of() =~= seq![Seq::<char>::empty()]);
        r
    }

    pub fn normal() -> (r: Self)
        ensures
            !r.verbose_of(),
            r.margin_of() == 0,
            r.lines_of() == seq![Seq::<char>::empty()],
    {
        Self::new(false)
    }

    pub fn verbose() -> (r: Self)
        ensures
            r.verbose_of(),
            r.margin_of() == 0,
            r.lines_of() == seq![Seq::<char>::empty()],
    {
        Self::new(true)
    }

    /// The line being written.
    pub fn cur(&self) -> (r: &String)
        requires
            self.lines_of().len() > 0,
        ensures
            r@ == self.lines_of().last(),
    {
        &self.lines[self.lines.len() - 1]
    }

    pub fn is_verbose(&self) -> (r: bool)
        ensures
            r == self.verbose_of(),
    {
        self.verbose
    }

    /// Starts a new, empty line.
    pub fn new_line(&mut self)
        ensures
            final(self).lines_of() == old(self).lines_of().push(Seq::<char>::empty()),
            final(self).margin_of() == old(self).margin_of(),
            final(self).verbose_of() == old(self).verbose_of(),
    {
        self.lines.push(String::new());
        assert(self.lines_of() =~= old(self).lines_of().push(Seq::<char>::empty()));
    }

    /// Appends `s` to the current line, indenting it first if it is empty.
    pub fn write(&mut self, s: &str)
        ensures
            final(self).lines_of() == written(old(self).lines_of(), old(self).margin_of(), s@),
            final(self).margin_of() == old(self).margin_of(),
            final(self).verbose_of() == old(self).verbose_of(),
    {
        let ghost lines0 = self.lines_of();
        let margin = self.margin;
        let mut cur = match self.lines.pop() {
            Some(line) => line,
            None => String::new(),
        };
        let ghost cur0 = cur@;
        assert(self.lines_of() =~= if lines0.len() == 0 { lines0 } else { lines0.drop_last() });
        if cur.as_str().is_empty() {
            let mut i: usize = 0;
            while i < margin
                invariant
                    i <= margin,
                    cur@ == spaces(i as nat),
                decreases margin - i,
            {
                proof {
                    reveal_strlit(" ");
                }
                cur.append(" ");
                i = i + 1;
                assert(cur@ =~= spaces(i as nat));
            }
        }
        cur.append(s);
        let ghost before = self.lines_of();
        self.lines.push(cur);
        assert(self.lines_of() =~= before.push(cur@));
    }

    /// Writes `s`, then starts a new line.
    pub fn writeln(&mut self, s: &str)
        ensures
            final(self).lines_of() == written(old(self).lines_of(), old(self).margin_of(), s@).push(Seq::<char>::empty()),
            final(self).margin_of() == old(self).margin_of(),
            final(self).verbose_of() == old(self).verbose_of(),
    {
        self.write(s);
        self.new_line();
    }

    /// Runs `f` on a new line with the margin increased by `inc`, then
    /// restores the margin and starts a new line.
    pub fn indent<F: FnOnce(&mut AstWriter)>(&mut self, inc: usize, f: F)
        requires
            old(self).margin_of() + inc <= usize::MAX,
            forall|w: &mut AstWriter| #[trigger] f.requires((w,)),
        ensures
            final(self).margin_of() == old(self).margin_of(),
            final(self).lines_of().len() > 0,
            final(self).lines_of().last() == Seq::<char>::empty(),
            exists|w: &mut AstWriter|
                #[trigger] f.ensures((w,), ()) && (*w).lines_of() == old(self).lines_of().push(Seq::<char>::empty())
                    && (*w).margin_of() == old(self).margin_of() + inc && (*w).verbose_of() == old(self).verbose_of()
                    && final(self).lines_of() == (*final(w)).lines_of().push(Seq::<char>::empty())
                    && final(self).verbose_of() == (*final(w)).verbose_of(),
    {
        let margin = self.margin;
        self.new_line();
        self.margin = margin + inc;
        f(self);
        self.margin = margin;
        self.new_line();
    }

    /// Writes ` {`, then `f` indented by four, then `}` on a line of its own.
    pub fn block<F: FnOnce(&mut AstWriter)>(&mut self, f: F)
        requires
            old(self).margin_of() + 4 <= usize::MAX,
            forall|w: &mut AstWriter| #[trigger] f.requires((w,)),
        ensures
            final(self).margin_of() == old(self).margin_of(),
            final(self).lines_of().len() > 0,
            final(self).lines_of().last() == spaces(old(self).margin_of()) + "}"@,
            exists|w: &mut AstWriter|
                #[trigger] f.ensures((w,), ()) && (*w).lines_of() == written(old(self).lines_of(), old(self).margin_of(), " {"@).push(
                    Seq::<char>::empty(),
                ) && (*w).margin_of() == old(self).margin_of() + 4 && (*w).verbose_of() == old(self).verbose_of()
                    && final(self).lines_of() == written(
                    (*final(w)).lines_of().push(Seq::<char>::empty()),
                    old(self).margin_of(),
                    "}"@,
                ) && final(self).verbose_of() == (*final(w)).verbose_of(),
    {
        proof {
            reveal_strlit(" {");
            reveal_strlit("}");
        }
        self.write(" {");
        self.indent(4, f);
        let ghost before = self.lines_of();
        self.write("}");
        assert(self.lines_of().last() == spaces(old(self).margin_of()) + "}"@);
    }

    /// Writes what `f` writes; in verbose mode, in parentheses and followed
    /// by `: ` and the annotation.
    pub fn annotate<F: FnOnce(&mut AstWriter), Annot: AstDebug>(&mut self, f: F, annot: &Annot)
        requires
            forall|w: &mut AstWriter| #[trigger] f.requires((w,)),
        ensures
            old(self).verbose_of() ==> final(self).lines_of().len() > 0 && final(self).lines_of().last().last() == ')',
    {
        self.annotate_gen(f, annot, |w: &mut AstWriter, a: &Annot| a.ast_debug(w))
    }

    /// Writes what `f` writes; in verbose mode, in parentheses and followed
    /// by `: ` and what `annot_writer` writes for `annot`.
    pub fn annotate_gen<F: FnOnce(&mut AstWriter), Annot, FAnnot: FnOnce(&mut AstWriter, &Annot)>(
        &mut self,
        f: F,
        annot: &Annot,
        annot_writer: FAnnot,
    )
        requires
            forall|w: &mut AstWriter| #[trigger] f.requires((w,)),
            forall|w: &mut AstWriter, a: &Annot| #[trigger] annot_writer.requires((w, a)),
        ensures
            old(self).verbose_of() ==> final(self).lines_of().len() > 0 && final(self).lines_of().last().last() == ')',
            !old(self).verbose_of() ==> exists|w: &mut AstWriter| #[trigger] f.ensures((w,), ()) && *w == *old(self) && *final(self) == *final(w),
            old(self).verbose_of() ==> exists|w1: &mut AstWriter, w2: &mut AstWriter|
                #[trigger] f.ensures((w1,), ()) && #[trigger] annot_writer.ensures((w2, annot), ())
                    && (*w1).lines_of() == written(old(self).lines_of(), old(self).margin_of(), "("@)
                    && (*w1).margin_of() == old(self).margin_of() && (*w1).verbose_of() == old(self).verbose_of()
                    && (*w2).lines_of() == written((*final(w1)).lines_of(), (*final(w1)).margin_of(), ": "@)
                    && (*w2).margin_of() == (*final(w1)).margin_of() && (*w2).verbose_of() == (*final(w1)).verbose_of()
                    && final(self).lines_of() == written((*final(w2)).lines_of(), (*final(w2)).margin_of(), ")"@)
                    && final(self).margin_of() == (*final(w2)).margin_of()
                    && final(self).verbose_of() == (*final(w2)).verbose_of(),
    {
        proof {
            reveal_strlit("(");
            reveal_strlit(": ");
            reveal_strlit(")");
        }
        let verbose = self.verbose;
        if verbose {
            self.write("(");
        }
        f(self);
        if verbose {
            self.write(": ");
            annot_writer(self, annot);
            self.write(")");
            assert(self.lines_of().last().last() == ')');
        }
    }

    /// Writes each item with `f`, separated by `sep`; after a separator, a
    /// new line starts where `f` asked for one.
    pub fn list<T, F: FnMut(&mut AstWriter, T) -> bool>(&mut self, items: Vec<T>, sep: &str, f: F)
        requires
            forall|w: &mut AstWriter, t: T| #[trigger] f.requires((w, t)),
        ensures
            items@.len() == 0 ==> *final(self) == *old(self),
    {
        let mut f = f;
        let len = items.len();
        let mut idx: usize = 0;
        for item in it: items.into_iter()
            invariant
                len == it.seq().len(),
                idx == it.index(),
                len == 0 ==> *self == *old(self),
                forall|w: &mut AstWriter, t: T| #[trigger] f.requires((w, t)),
        {
            let needs_newline = f(self, item);
            if idx + 1 != len {
                self.write(sep);
                if needs_newline {
                    self.new_line();
                }
            }
            idx = idx + 1;
        }
    }

    /// Writes each item with `f`, separated by `, `.
    pub fn comma<T, F: FnMut(&mut AstWriter, T)>(&mut self, items: Vec<T>, f: F)
        requires
            forall|w: &mut AstWriter, t: T| #[trigger] f.requires((w, t)),
        ensures
            items@.len() == 0 ==> *final(self) == *old(self),
    {
        let mut f = f;
        let len = items.len();
        let mut idx: usize = 0;
        for item in it: items.into_iter()
            invariant
                len == it.seq().len(),
                idx == it.index(),
                len == 0 ==> *self == *old(self),
                forall|w: &mut AstWriter, t: T| #[trigger] f.requires((w, t)),
        {
            f(self, item);
            if idx + 1 != len {
                self.write(", ");
            }
            idx = idx + 1;
        }
    }

    /// Writes each item with `f`, separated by `;` and a new line.
    pub fn semicolon<T, F: FnMut(&mut AstWriter, T)>(&mut self, items: Vec<T>, f: F)
        requires
            forall|w: &mut AstWriter, t: T| #[trigger] f.requires((w, t)),
        ensures
            items@.len() == 0 ==> *final(self) == *old(self),
    {
        let mut f = f;
        let len = items.len();
        let mut idx: usize = 0;
        for item in it: items.into_iter()
            invariant
                len == it.seq().len(),
                idx == it.index(),
                len == 0 ==> *self == *old(self),
                forall|w: &mut AstWriter, t: T| #[trigger] f.requires((w, t)),
        {
            f(self, item);
            if idx + 1 != len {
                self.write(";");
                self.new_line();
            }
            idx = idx + 1;
        }
    }

    /// The printed text: every line followed by a line break.
    pub fn render(&self) -> (r: String)
        ensures
            r@ == rendered(self.lines_of()),
    {
        let mut r = String::new();
        let mut i: usize = 0;
        while i < self.lines.len()
            invariant
                i <= self.lines.len(),
                r@ == rendered(self.lines_of().take(i as int)),
            decreases self.lines.len() - i,
        {
            proof {
                reveal_strlit("\n");
            }
            r.append(self.lines[i].as_str());
            r.append("\n");
            assert(self.lines_of().take(i + 1).drop_last() =~= self.lines_of().take(i as int));
            i = i + 1;
        }
        assert(self.lines_of().take(self.lines.len() as int) =~= self.lines_of());
        r
    }
}

/// A syntax tree paired with the mode to print it in.
pub struct DisplayWrapper<'a, T: AstDebug>(pub &'a T, pub bool);

impl<'a, T: AstDebug> DisplayWrapper<'a, T> {
    /// The text that the tree prints, in verbose mode when the flag is set.
    pub fn render(&self) -> String {
        let mut writer = if self.1 {
            AstWriter::verbose()
        } else {
            AstWriter::normal()
        };
        self.0.ast_debug(&mut writer);
        writer.render()
    }
}

/// The text of `lines`, each followed by a line break.
pub open spec fn rendered(lines: Seq<Seq<char>>) -> Seq<char>
    decreases lines.len(),
{
    if lines.len() == 0 {
        Seq::empty()
    } else {
        rendered(lines.drop_last()) + lines.last() + seq!['\n']
    }
}

} // verus!
