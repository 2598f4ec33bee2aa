//! Texts with places that are filled from the fields of an event.

use crate::fields::{get, lookup, pairs, Label, Pair};
use vstd::prelude::*;
use vstd::string::{StrSliceExecFns, StringExecFns};

verus! {

/// One piece of a template.
#[derive(Clone, Debug, PartialEq, Eq)]
pub enum TemplatePart {
    /// Text that stands for itself.
    Literal(String),
    /// The name of a field whose text is put in its place.
    Field(String),
}

/// A text made of literal pieces and field references.
#[derive(Clone, Debug, PartialEq, Eq)]
pub struct Template {
    pub parts: Vec<TemplatePart>,
}

impl View for Template {
    type V = Seq<TemplatePart>;

    open spec fn view(&self) -> Seq<TemplatePart> {
        self.parts@
    }
}

/// The text of one piece: `None` for a field that the event does not have.
pub open spec fn part_text(part: TemplatePart, fields: Seq<Pair>) -> Option<Seq<char>> {
    match part {
        TemplatePart::Literal(s) => Some(s@),
        TemplatePart::Field(name) => lookup(fields, name@),
    }
}

/// The text of a template: its pieces one after the other, or `None` where
/// a field is missing.
pub open spec fn rendered(parts: Seq<TemplatePart>, fields: Seq<Pair>) -> Option<Seq<char>>
    decreases parts.len(),
{
    if parts.len() == 0 {
        Some(Seq::empty())
    } else {
        match (rendered(parts.drop_last(), fields), part_text(parts.last(), fields)) {
            (Some(front), Some(last)) => Some(front + last),
            _ => None,
        }
    }
}

proof fn lemma_rendered_prefix(parts: Seq<TemplatePart>, fields: Seq<Pair>, n: int)
    requires
        0 <= n <= parts.len(),
        rendered(parts.take(n), fields).is_none(),
    ensures
        rendered(parts, fields).is_none(),
    decreases parts.len(),
{
    if n == parts.len() {
        assert(parts.take(n) == parts);
    } else {
        assert(parts.drop_last().take(n) == parts.take(n));
        lemma_rendered_prefix(parts.drop_last(), fields, n);
    }
}

impl Template {
    /// A template of one literal piece.
    pub fn literal(text: &str) -> (template: Template)
        ensures
            template@.len() == 1,
            template@[0] matches TemplatePart::Literal(s) && s@ == text@,
    {
        let mut parts: Vec<TemplatePart> = Vec::new();
        parts.push(TemplatePart::Literal(String::from_str(text)));
        Template { parts }
    }

    /// A copy of the template.
    pub fn duplicate(&self) -> (copy: Template)
        ensures
            copy@ == self@,
    {
        let mut parts: Vec<TemplatePart> = Vec::new();
        let mut i: usize = 0;
        while i < self.parts.len()
            invariant
                i <= self.parts.len(),
                parts@ == self.parts@.take(i as int),
            decreases self.parts.len() - i,
        {
            let part = match &self.parts[i] {
                TemplatePart::Literal(s) => TemplatePart::Literal(s.clone()),
                TemplatePart::Field(s) => TemplatePart::Field(s.clone()),
            };
            parts.push(part);
            proof {
                assert(parts@ =~= self.parts@.take(i + 1));
            }
            i += 1;
        }
        proof {
            assert(self.parts@.take(self.parts.len() as int) == self.parts@);
        }
        Template { parts }
    }

    /// Fills the template from the fields. `None` where the template names
    /// a field that is not among them.
    pub fn render(&self, fields: &Vec<Label>) -> (text: Option<String>)
        ensures
            match text {
                Some(t) => rendered(self@, pairs(fields@)) == Some(t@),
                None => rendered(self@, pairs(fields@)).is_none(),
            },
    {
        let mut text = String::new();
        let mut i: usize = 0;
        while i < self.parts.len()
            invariant
                i <= self.parts.len(),
                rendered(self.parts@.take(i as int), pairs(fields@)) == Some(text@),
            decreases self.parts.len() - i,
        {
            proof {
                assert(self.parts@.take(i + 1).drop_last() == self.parts@.take(i as int));
                assert(self.parts@.take(i + 1).last() == self.parts@[i as int]);
            }
            match &self.parts[i] {
                TemplatePart::Literal(s) => {
                    text.append(s.as_str());
                },
                TemplatePart::Field(name) => {
                    match get(fields, name) {
                        Some(value) => {
                            text.append(value.as_str());
                        },
                        None => {
                            proof {
                                lemma_rendered_prefix(self.parts@, pairs(fields@), i + 1);
                            }
                            return None;
                        },
                    }
                },
            }
            i += 1;
        }
        proof {
            assert(self.parts@.take(self.parts.len() as int) == self.parts@);
        }
        Some(text)
    }
}

/// A piece of a template as a model value.
pub enum PartView {
    Literal(Seq<char>),
    Field(Seq<char>),
}

/// The model of a piece.
pub open spec fn part_view(part: TemplatePart) -> PartView {
    match part {
        TemplatePart::Literal(s) => PartView::Literal(s@),
        TemplatePart::Field(s) => PartView::Field(s@),
    }
}

/// The models of some pieces.
pub open spec fn part_views(parts: Seq<TemplatePart>) -> Seq<PartView> {
    parts.map_values(|p: TemplatePart| part_view(p))
}

/// Whether the two characters at `i` are `c`.
pub open spec fn pair_at(s: Seq<char>, i: int, c: char) -> bool {
    0 <= i && i + 1 < s.len() && s[i] == c && s[i + 1] == c
}

/// The first position at or after `from` where `c` stands twice, or the
/// length where it does not.
pub open spec fn next_pair(s: Seq<char>, from: int, c: char) -> int
    decreases s.len() - from,
{
    if from < 0 || from + 1 >= s.len() {
        s.len() as int
    } else if pair_at(s, from, c) {
        from
    } else {
        next_pair(s, from + 1, c)
    }
}

/// The first position in `a..b` that holds no space, or `b`.
pub open spec fn trim_start(s: Seq<char>, a: int, b: int) -> int
    decreases b - a,
{
    if a < 0 || a >= b || a >= s.len() || s[a] != ' ' {
        a
    } else {
        trim_start(s, a + 1, b)
    }
}

/// The position after the last character in `a..b` that is no space, or
/// `a`.
pub open spec fn trim_end(s: Seq<char>, a: int, b: int) -> int
    decreases b - a,
{
    if a >= b || b <= 0 || b > s.len() || s[b - 1] != ' ' {
        b
    } else {
        trim_end(s, a, b - 1)
    }
}

/// The pieces of a template written as text, from `from` on: a field name
/// stands between `{{` and the next `}}`, without the spaces around it;
/// everything else is literal text. Braces that are not closed are literal
/// text.
pub open spec fn parsed(s: Seq<char>, from: int) -> Seq<PartView>
    decreases s.len() - from,
{
    if from < 0 || from >= s.len() {
        Seq::empty()
    } else {
        let o = next_pair(s, from, '{');
        let c = next_pair(s, o + 2, '}');
        if o >= s.len() || c + 2 > s.len() || c + 2 <= from {
            seq![PartView::Literal(s.subrange(from, s.len() as int))]
        } else {
            let a = trim_start(s, o + 2, c);
            let b = trim_end(s, a, c);
            let field = seq![PartView::Field(s.subrange(a, b))] + parsed(s, c + 2);
            if o > from {
                seq![PartView::Literal(s.subrange(from, o))] + field
            } else {
                field
            }
        }
    }
}

proof fn lemma_next_pair(s: Seq<char>, from: int, c: char)
    requires
        0 <= from,
    ensures
        from <= next_pair(s, from, c) || next_pair(s, from, c) == s.len(),
        next_pair(s, from, c) <= s.len(),
        next_pair(s, from, c) < s.len() ==> pair_at(s, next_pair(s, from, c), c),
    decreases s.len() - from,
{
    if from + 1 < s.len() && !pair_at(s, from, c) {
        lemma_next_pair(s, from + 1, c);
    }
}

proof fn lemma_trims(s: Seq<char>, a: int, b: int)
    requires
        0 <= a <= b <= s.len(),
    ensures
        a <= trim_start(s, a, b) <= b,
        a <= trim_end(s, a, b) <= b,
    decreases b - a,
{
    if a < b {
        if s[a] == ' ' {
            lemma_trims(s, a + 1, b);
        }
        if s[b - 1] == ' ' {
            lemma_trims(s, a, b - 1);
        }
    }
}

fn find_pair(chars: &Vec<char>, from: usize, c: char) -> (at: usize)
    ensures
        at == next_pair(chars@, from as int, c),
{
    let n: usize = chars.len();
    let mut i: usize = from;
    while i < n && n - i >= 2 && !(chars[i] == c && chars[i + 1] == c)
        invariant
            n == chars.len(),
            from <= i,
            next_pair(chars@, from as int, c) == next_pair(chars@, i as int, c),
        decreases n - i,
    {
        i += 1;
    }
    if i < n && n - i >= 2 {
        i
    } else {
        n
    }
}

fn skip_spaces(chars: &Vec<char>, a: usize, b: usize) -> (at: usize)
    requires
        a <= b <= chars.len(),
    ensures
        at == trim_start(chars@, a as int, b as int),
        a <= at <= b,
{
    let mut i: usize = a;
    while i < b && chars[i] == ' '
        invariant
            a <= i <= b <= chars.len(),
            trim_start(chars@, a as int, b as int) == trim_start(chars@, i as int, b as int),
        decreases b - i,
    {
        i += 1;
    }
    i
}

fn drop_spaces(chars: &Vec<char>, a: usize, b: usize) -> (at: usize)
    requires
        a <= b <= chars.len(),
    ensures
        at == trim_end(chars@, a as int, b as int),
        a <= at <= b,
{
    let mut i: usize = b;
    while i > a && chars[i - 1] == ' '
        invariant
            a <= i <= b <= chars.len(),
            trim_end(chars@, a as int, b as int) == trim_end(chars@, a as int, i as int),
        decreases i - a,
    {
        i -= 1;
    }
    i
}

fn characters(text: &str) -> (chars: Vec<char>)
    ensures
        chars@ == text@,
{
    let n: usize = text.unicode_len();
    let mut chars: Vec<char> = Vec::new();
    let mut i: usize = 0;
    while i < n
        invariant
            i <= n,
            n == text@.len(),
            chars@ == text@.take(i as int),
        decreases n - i,
    {
        chars.push(text.get_char(i));
        proof {
            assert(chars@ =~= text@.take(i + 1));
        }
        i += 1;
    }
    proof {
        assert(text@.take(n as int) == text@);
    }
    chars
}

impl Template {
    /// Reads a template from its text: a field name stands between `{{` and
    /// the next `}}`; everything else is literal text.
    pub fn parse(text: &str) -> (template: Template)
        ensures
            part_views(template@) == parsed(text@, 0),
    {
        let chars = characters(text);
        let n: usize = chars.len();
        let mut parts: Vec<TemplatePart> = Vec::new();
        let mut from: usize = 0;
        proof {
            assert(part_views(parts@) + parsed(text@, 0) =~= parsed(text@, 0));
        }
        while from < n
            invariant
                n == chars.len(),
                chars@ == text@,
                part_views(parts@) + parsed(text@, from as int) == parsed(text@, 0),
            decreases n - from,
        {
            let ghost done = part_views(parts@);
            let o = find_pair(&chars, from, '{');
            proof {
                lemma_next_pair(text@, from as int, '{');
            }
            let c = if o < n {
                find_pair(&chars, o + 2, '}')
            } else {
                n
            };
            proof {
                if o < n {
                    lemma_next_pair(text@, o + 2, '}');
                }
            }
            if o >= n || c >= n {
                let rest = String::from_str(text.substring_char(from, n));
                parts.push(TemplatePart::Literal(rest));
                proof {
                    assert(part_views(parts@) =~= done.push(
                        PartView::Literal(text@.subrange(from as int, n as int)),
                    ));
                    assert(part_views(parts@) =~= done + parsed(text@, from as int));
                    assert(part_views(parts@) + parsed(text@, n as int) =~= parsed(text@, 0));
                }
                from = n;
            } else {
                proof {
                    lemma_trims(text@, o + 2, c as int);
                }
                let a = skip_spaces(&chars, o + 2, c);
                proof {
                    lemma_trims(text@, a as int, c as int);
                }
                let b = drop_spaces(&chars, a, c);
                if o > from {
                    parts.push(
                        TemplatePart::Literal(String::from_str(text.substring_char(from, o))),
                    );
                }
                parts.push(TemplatePart::Field(String::from_str(text.substring_char(a, b))));
                proof {
                    let field = seq![PartView::Field(text@.subrange(a as int, b as int))];
                    if o > from {
                        assert(part_views(parts@) =~= done + (seq![
                            PartView::Literal(text@.subrange(from as int, o as int)),
                        ] + field));
                    } else {
                        assert(part_views(parts@) =~= done + field);
                    }
                    assert(part_views(parts@) + parsed(text@, c + 2) =~= done + parsed(
                        text@,
                        from as int,
                    ));
                }
                from = c + 2;
            }
        }
        proof {
            assert(part_views(parts@) + parsed(text@, from as int) =~= part_views(parts@));
        }
        Template { parts }
    }
}

} // verus!
