use vstd::prelude::*;

verus! {

/// How a narrative line is to be styled.
#[derive(Clone, Copy, Debug, PartialEq, Eq, Structural)]
pub enum NarrativeLineKind {
    Narration,
    System,
    Error,
    Heading,
}

/// One line of turn output.
pub struct NarrativeLine {
    pub kind: NarrativeLineKind,
    pub text: String,
}

/// The lines produced while applying a turn, in order.
pub struct NarrativeLines(pub Vec<NarrativeLine>);

/// Each line's style and text.
pub open spec fn line_views(lines: Seq<NarrativeLine>) -> Seq<(NarrativeLineKind, Seq<char>)> {
    lines.map_values(|l: NarrativeLine| (l.kind, l.text@))
}

/// Narration lines for the given texts, in order.
pub open spec fn narration_views(texts: Seq<String>) -> Seq<(NarrativeLineKind, Seq<char>)> {
    texts.map_values(|t: String| (NarrativeLineKind::Narration, t@))
}

impl NarrativeLines {
    pub open spec fn views(&self) -> Seq<(NarrativeLineKind, Seq<char>)> {
        line_views(self.0@)
    }

    pub open spec fn texts(&self) -> Seq<Seq<char>> {
        self.0@.map_values(|l: NarrativeLine| l.text@)
    }

    pub fn new() -> (r: Self)
        ensures
            r.0@.len() == 0,
    {
        NarrativeLines(Vec::new())
    }

    pub fn push_line(&mut self, kind: NarrativeLineKind, text: String)
        ensures
            final(self).0@ == old(self).0@.push(NarrativeLine { kind: kind, text: text }),
    {
        self.0.push(NarrativeLine { kind, text });
    }

    pub fn narration(&mut self, text: String)
        ensures
            final(self).0@ == old(self).0@.push(NarrativeLine { kind: NarrativeLineKind::Narration, text: text }),
    {
        self.push_line(NarrativeLineKind::Narration, text);
    }

    pub fn system(&mut self, text: String)
        ensures
            final(self).0@ == old(self).0@.push(NarrativeLine { kind: NarrativeLineKind::System, text: text }),
    {
        self.push_line(NarrativeLineKind::System, text);
    }

    pub fn heading(&mut self, text: String)
        ensures
            final(self).0@ == old(self).0@.push(NarrativeLine { kind: NarrativeLineKind::Heading, text: text }),
    {
        self.push_line(NarrativeLineKind::Heading, text);
    }

    /// The texts of the lines, one per line.
    pub fn to_text(&self) -> (r: String)
        ensures
            r@ == crate::reducer::summaries::join_with(self.texts(), "\n"@),
    {
        let mut texts: Vec<String> = Vec::new();
        let mut i: usize = 0;
        while i < self.0.len()
            invariant
                i <= self.0.len(),
                texts@.map_values(|s: String| s@) == self.texts().take(i as int),
            decreases self.0.len() - i,
        {
            let ghost before = texts@;
            let t = crate::text::string_of(self.0[i].text.as_str());
            texts.push(t);
            proof {
                crate::text::lemma_map_values_push(before, t, |s: String| s@);
                assert(texts@.map_values(|s: String| s@) =~= self.texts().take(i + 1));
            }
            i = i + 1;
        }
        assert(self.texts().take(self.0.len() as int) =~= self.texts());
        crate::reducer::observation::join_texts(&texts, "\n")
    }

    pub fn error(&mut self, text: String)
        ensures
            final(self).0@ == old(self).0@.push(NarrativeLine { kind: NarrativeLineKind::Error, text: text }),
    {
        self.push_line(NarrativeLineKind::Error, text);
    }

    /// Appends the given lines, in order.
    pub fn extend(&mut self, more: Vec<NarrativeLine>)
        ensures
            final(self).0@ == old(self).0@ + more@,
    {
        let mut more = more;
        let ghost all = more@;
        let ghost start = self.0@;
        let mut taken: usize = 0;
        assert(all.len() == more.len());
        while more.len() > 0
            invariant
                taken <= all.len(),
                all.len() <= usize::MAX,
                more@ == all.skip(taken as int),
                self.0@ == start + all.take(taken as int),
            decreases more.len(),
        {
            let line = more.remove(0);
            assert(all.skip(taken as int)[0] == line);
            self.0.push(line);
            assert(all.take(taken as int + 1) =~= all.take(taken as int).push(line));
            taken = taken + 1;
            assert(more@ =~= all.skip(taken as int));
        }
        assert(all.take(taken as int) =~= all);
    }

    /// Appends each text as a narration line, in order.
    pub fn extend_narration(&mut self, texts: Vec<String>)
        ensures
            final(self).0@.len() == old(self).0@.len() + texts@.len(),
            final(self).0@.take(old(self).0@.len() as int) == old(self).0@,
            forall|i: int| 0 <= i < texts@.len() ==> #[trigger] final(self).0@[old(self).0@.len() + i]
                == (NarrativeLine { kind: NarrativeLineKind::Narration, text: texts@[i] }),
            final(self).views() == old(self).views() + narration_views(texts@),
    {
        let mut texts = texts;
        let ghost all = texts@;
        let ghost start = self.0@;
        while texts.len() > 0
            invariant
                self.0@.len() >= start.len(),
                self.0@.len() - start.len() + texts@.len() == all.len(),
                texts@ == all.skip(self.0@.len() - start.len()),
                self.0@.take(start.len() as int) == start,
                forall|i: int| 0 <= i < self.0@.len() - start.len() ==> #[trigger] self.0@[start.len() + i]
                    == (NarrativeLine { kind: NarrativeLineKind::Narration, text: all[i] }),
            decreases texts.len(),
        {
            let ghost k = self.0@.len() - start.len();
            let t = texts.remove(0);
            assert(all.skip(k)[0] == t);
            self.narration(t);
            assert(texts@ =~= all.skip(k + 1));
            assert(self.0@.take(start.len() as int) =~= start);
        }
        proof {
            assert forall|i: int| 0 <= i < start.len() implies #[trigger] self.0@[i] == start[i] by {
                assert(self.0@.take(start.len() as int)[i] == self.0@[i]);
            }
            assert(line_views(self.0@) =~= line_views(start) + narration_views(all)) by {
                assert forall|i: int| 0 <= i < self.0@.len() implies #[trigger] line_views(self.0@)[i] == (line_views(start) + narration_views(all))[i] by {
                    if i >= start.len() {
                        assert(self.0@[start.len() + (i - start.len())] == self.0@[i]);
                    }
                }
            }
        }
    }
}

} // verus!
