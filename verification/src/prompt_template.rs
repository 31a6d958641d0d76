//! Prompt templates: text with variables, default values and conditional blocks.
//!
//! `{{name}}` stands for the value of a variable, `{{name:default}}` for its value or the default,
//! and what stands between `{{#if name}}` and `{{#endif}}` is shown where the variable has a value
//! that is not empty; what stands behind an `{{#else}}` between them is shown where it has not.

use vstd::prelude::*;
use crate::error::ReactError;
use crate::table::{table_texts, Table};
use crate::text::{
    char_from, chars_of, concat, contains, contains_str, find_from, find_pos, is_white,
    lemma_find_from, lemma_find_shift, opt_str, same, starts_with, string_of, strs, trim, trim_end,
    trim_start, trimmed,
};

verus! {

// ── Parsing ─────────────────────────────────────────────────────────────────────────────────

/// A piece of a template.
pub enum TemplateElement {
    /// Text.
    Literal(String),
    /// The value of a variable, or a default.
    Variable { name: String, default: Option<String> },
    /// The beginning of a block that depends on a variable.
    ConditionalStart { name: String },
    /// The beginning of the alternative of a block.
    ConditionalElse,
    /// The end of a block.
    ConditionalEnd,
}

/// A piece of a template.
pub enum ElementView {
    Literal(Seq<char>),
    Variable(Seq<char>, Option<Seq<char>>),
    Start(Seq<char>),
    Else,
    End,
}

impl View for TemplateElement {
    type V = ElementView;

    open spec fn view(&self) -> ElementView {
        match self {
            TemplateElement::Literal(t) => ElementView::Literal(t@),
            TemplateElement::Variable { name, default } => ElementView::Variable(
                name@,
                opt_str(*default),
            ),
            TemplateElement::ConditionalStart { name } => ElementView::Start(name@),
            TemplateElement::ConditionalElse => ElementView::Else,
            TemplateElement::ConditionalEnd => ElementView::End,
        }
    }
}

/// What each piece is.
pub open spec fn element_views(v: Seq<TemplateElement>) -> Seq<ElementView> {
    v.map_values(|e: TemplateElement| e@)
}

/// What a tag stands for; an empty one stands for nothing.
pub open spec fn tag_elements(content: Seq<char>) -> Seq<ElementView> {
    let t = trim(content);
    if "#if "@.is_prefix_of(t) {
        seq![ElementView::Start(trim(t.subrange(4, t.len() as int)))]
    } else if t == "#else"@ {
        seq![ElementView::Else]
    } else if t == "#endif"@ {
        seq![ElementView::End]
    } else if t.len() > 0 {
        match char_from(t, ':', 0) {
            Some(i) => seq![
                ElementView::Variable(
                    trim(t.take(i)),
                    Some(trim(t.subrange(i + 1, t.len() as int))),
                ),
            ],
            None => seq![ElementView::Variable(t, None)],
        }
    } else {
        Seq::empty()
    }
}

/// Text as a piece, where there is any.
pub open spec fn literal(s: Seq<char>) -> Seq<ElementView> {
    if s.len() > 0 {
        seq![ElementView::Literal(s)]
    } else {
        Seq::empty()
    }
}

/// The pieces of a template at and behind `from`. A tag that is left open is text, with all that
/// stands before and behind it.
pub open spec fn parsed(s: Seq<char>, from: int) -> Seq<ElementView>
    decreases s.len() - from,
{
    let open = seq!['{', '{'];
    let close = seq!['}', '}'];
    if from < 0 || from >= s.len() {
        Seq::empty()
    } else {
        match find_from(s, open, from) {
            None => seq![ElementView::Literal(s.subrange(from, s.len() as int))],
            Some(p) => match find_from(s, close, p + 2) {
                None => seq![ElementView::Literal(s.subrange(from, s.len() as int))],
                Some(c) => {
                    proof {
                        lemma_find_from(s, open, from);
                        lemma_find_from(s, close, p + 2);
                    }
                    literal(s.subrange(from, p)) + tag_elements(s.subrange(p + 2, c)) + parsed(
                        s,
                        c + 2,
                    )
                },
            },
        }
    }
}

fn find_char(v: &Vec<char>, c: char) -> (r: Option<usize>)
    ensures
        match r {
            Some(i) => char_from(v@, c, 0) == Some(i as int) && i < v.len(),
            None => char_from(v@, c, 0) is None,
        },
{
    let mut i: usize = 0;
    while i < v.len()
        invariant
            i <= v.len(),
            char_from(v@, c, 0) == char_from(v@, c, i as int),
        decreases v.len() - i,
    {
        if v[i] == c {
            return Some(i);
        }
        i = i + 1;
    }
    None
}

fn push_element(out: &mut Vec<TemplateElement>, e: TemplateElement)
    ensures
        element_views(final(out)@) == element_views(old(out)@) + seq![e@],
{
    let ghost before = out@;
    out.push(e);
    assert(element_views(out@) =~= element_views(before) + seq![e@]);
}

fn push_tag(out: &mut Vec<TemplateElement>, content: &str)
    ensures
        element_views(final(out)@) == element_views(old(out)@) + tag_elements(content@),
{
    let tag = trimmed(content);
    let t = tag.as_str();
    let v = chars_of(t);
    if starts_with(t, "#if ") {
        proof {
            reveal_strlit("#if ");
        }
        let rest = string_of(&v, 4, v.len());
        push_element(out, TemplateElement::ConditionalStart { name: trimmed(rest.as_str()) });
    } else if same(t, "#else") {
        push_element(out, TemplateElement::ConditionalElse);
    } else if same(t, "#endif") {
        push_element(out, TemplateElement::ConditionalEnd);
    } else if !t.is_empty() {
        match find_char(&v, ':') {
            Some(i) => {
                let name = string_of(&v, 0, i);
                let default = string_of(&v, i + 1, v.len());
                assert(name@ =~= t@.take(i as int));
                push_element(
                    out,
                    TemplateElement::Variable {
                        name: trimmed(name.as_str()),
                        default: Some(trimmed(default.as_str())),
                    },
                );
            },
            None => {
                push_element(
                    out,
                    TemplateElement::Variable { name: t.to_owned(), default: None },
                );
            },
        }
    } else {
        assert(element_views(out@) + Seq::<ElementView>::empty() =~= element_views(out@));
    }
}

/// The pieces of a template.
pub fn parse_template(template: &str) -> (r: Vec<TemplateElement>)
    ensures
        element_views(r@) == parsed(template@, 0),
{
    let v = chars_of(template);
    let open: Vec<char> = vec!['{', '{'];
    let close: Vec<char> = vec!['}', '}'];
    assert(open@ =~= seq!['{', '{']);
    assert(close@ =~= seq!['}', '}']);
    let mut out: Vec<TemplateElement> = Vec::new();
    let mut from: usize = 0;
    assert(element_views(out@) + parsed(template@, 0) =~= parsed(template@, 0));
    while from < v.len()
        invariant
            v@ == template@,
            open@ == seq!['{', '{'],
            close@ == seq!['}', '}'],
            from <= v.len(),
            parsed(template@, 0) == element_views(out@) + parsed(template@, from as int),
        decreases v.len() - from,
    {
        let ghost before = element_views(out@);
        proof {
            lemma_find_from(v@, open@, from as int);
        }
        match find_pos(&v, &open, from) {
            None => {
                let rest = string_of(&v, from, v.len());
                push_element(&mut out, TemplateElement::Literal(rest));
                return out;
            },
            Some(p) => {
                proof {
                    lemma_find_from(v@, close@, p + 2);
                }
                match find_pos(&v, &close, p + 2) {
                    None => {
                        let rest = string_of(&v, from, v.len());
                        push_element(&mut out, TemplateElement::Literal(rest));
                        return out;
                    },
                    Some(c) => {
                        let text = string_of(&v, from, p);
                        if p > from {
                            push_element(&mut out, TemplateElement::Literal(text));
                        } else {
                            assert(before + Seq::<ElementView>::empty() =~= before);
                        }
                        let ghost lit = literal(template@.subrange(from as int, p as int));
                        assert(element_views(out@) == before + lit);
                        let content = string_of(&v, p + 2, c);
                        push_tag(&mut out, content.as_str());
                        proof {
                            let tag = tag_elements(content@);
                            let rest = parsed(template@, c + 2);
                            assert(before + (lit + tag + rest) =~= before + lit + tag + rest);
                        }
                        from = c + 2;
                    },
                }
            },
        }
    }
    assert(element_views(out@) + Seq::<ElementView>::empty() =~= element_views(out@));
    out
}

// ── Rendering ───────────────────────────────────────────────────────────────────────────────

/// The alternative and the end of the block that is open at `j`, looked for before `to`; of several
/// alternatives the last one counts.
pub open spec fn block_marks(
    e: Seq<ElementView>,
    to: int,
    j: int,
    depth: nat,
    alternative: Option<int>,
) -> (Option<int>, Option<int>)
    decreases to - j,
{
    if j >= to {
        (alternative, None)
    } else {
        match e[j] {
            ElementView::Start(_) => block_marks(e, to, j + 1, depth + 1, alternative),
            ElementView::End => if depth == 0 {
                (alternative, Some(j))
            } else {
                block_marks(e, to, j + 1, (depth - 1) as nat, alternative)
            },
            ElementView::Else => if depth == 0 {
                block_marks(e, to, j + 1, depth, Some(j))
            } else {
                block_marks(e, to, j + 1, depth, alternative)
            },
            _ => block_marks(e, to, j + 1, depth, alternative),
        }
    }
}

/// The alternative and the end of a block stand behind its beginning, the end behind the
/// alternative.
pub proof fn lemma_block_marks(
    e: Seq<ElementView>,
    to: int,
    j: int,
    depth: nat,
    alternative: Option<int>,
    from: int,
)
    requires
        from < j <= to,
        alternative is Some ==> from < alternative->0 < j,
    ensures
        ({
            let (a, end) = block_marks(e, to, j, depth, alternative);
            let last = match end {
                Some(x) => x,
                None => to,
            };
            &&& from < last <= to
            &&& end is Some ==> last < to
            &&& a is Some ==> from < a->0 < last
        }),
    decreases to - j,
{
    if j < to {
        match e[j] {
            ElementView::Start(_) => {
                lemma_block_marks(e, to, j + 1, depth + 1, alternative, from);
            },
            ElementView::End => {
                if depth > 0 {
                    lemma_block_marks(e, to, j + 1, (depth - 1) as nat, alternative, from);
                }
            },
            ElementView::Else => {
                if depth == 0 {
                    lemma_block_marks(e, to, j + 1, depth, Some(j), from);
                } else {
                    lemma_block_marks(e, to, j + 1, depth, alternative, from);
                }
            },
            _ => {
                lemma_block_marks(e, to, j + 1, depth, alternative, from);
            },
        }
    }
}

/// Whether a variable has a value that is not empty.
pub open spec fn has_value(vars: Map<Seq<char>, Seq<char>>, name: Seq<char>) -> bool {
    vars.contains_key(name) && vars[name].len() > 0
}

/// What a variable stands for: its value, else the default, else nothing.
pub open spec fn value_of(
    vars: Map<Seq<char>, Seq<char>>,
    name: Seq<char>,
    default: Option<Seq<char>>,
) -> Seq<char> {
    if vars.contains_key(name) {
        vars[name]
    } else {
        match default {
            Some(d) => d,
            None => Seq::empty(),
        }
    }
}

/// The text of the pieces from `from` to `to`.
pub open spec fn rendered(
    e: Seq<ElementView>,
    from: int,
    to: int,
    vars: Map<Seq<char>, Seq<char>>,
) -> Seq<char>
    decreases to - from,
{
    if from >= to {
        Seq::empty()
    } else {
        match e[from] {
            ElementView::Literal(t) => t + rendered(e, from + 1, to, vars),
            ElementView::Variable(n, d) => value_of(vars, n, d) + rendered(e, from + 1, to, vars),
            ElementView::Start(n) => {
                let (alternative, end_mark) = block_marks(e, to, from + 1, 0, None);
                let end = match end_mark {
                    Some(x) => x,
                    None => to,
                };
                proof {
                    lemma_block_marks(e, to, from + 1, 0, None, from);
                }
                let block = if has_value(vars, n) {
                    match alternative {
                        Some(a) => rendered(e, from + 1, a, vars),
                        None => rendered(e, from + 1, end, vars),
                    }
                } else {
                    match alternative {
                        Some(a) => rendered(e, a + 1, end, vars),
                        None => Seq::empty(),
                    }
                };
                block + match end_mark {
                    Some(x) => rendered(e, x + 1, to, vars),
                    None => Seq::empty(),
                }
            },
            ElementView::Else => rendered(e, from + 1, to, vars),
            ElementView::End => rendered(e, from + 1, to, vars),
        }
    }
}

/// The text of a template.
pub open spec fn template_text(s: Seq<char>, vars: Map<Seq<char>, Seq<char>>) -> Seq<char> {
    rendered(parsed(s, 0), 0, parsed(s, 0).len() as int, vars)
}

/// The marks of the block that begins before `from`.
fn find_marks(elements: &Vec<TemplateElement>, from: usize, to: usize) -> (r: (
    Option<usize>,
    Option<usize>,
))
    requires
        from <= to <= elements.len(),
    ensures
        ({
            let (a, end) = block_marks(element_views(elements@), to as int, from as int, 0, None);
            &&& match r.0 {
                Some(x) => a == Some(x as int),
                None => a is None,
            }
            &&& match r.1 {
                Some(x) => end == Some(x as int),
                None => end is None,
            }
        }),
{
    let ghost e = element_views(elements@);
    let ghost whole = block_marks(e, to as int, from as int, 0, None);
    let mut alternative: Option<usize> = None;
    let mut depth: usize = 0;
    let mut j: usize = from;
    while j < to
        invariant
            e == element_views(elements@),
            from <= j <= to <= elements.len(),
            depth <= j - from,
            whole == block_marks(
                e,
                to as int,
                j as int,
                depth as nat,
                match alternative {
                    Some(x) => Some(x as int),
                    None => None,
                },
            ),
            whole == block_marks(e, to as int, from as int, 0, None),
        decreases to - j,
    {
        assert(e[j as int] == elements@[j as int]@);
        match &elements[j] {
            TemplateElement::ConditionalStart { name } => {
                depth = depth + 1;
            },
            TemplateElement::ConditionalEnd => {
                if depth == 0 {
                    return (alternative, Some(j));
                }
                depth = depth - 1;
            },
            TemplateElement::ConditionalElse => {
                if depth == 0 {
                    alternative = Some(j);
                }
            },
            _ => {},
        }
        j = j + 1;
    }
    (alternative, None)
}

/// The text of the pieces from `from` to `to`.
fn render_elements(
    elements: &Vec<TemplateElement>,
    from: usize,
    to: usize,
    vars: &Table<String>,
) -> (r: String)
    requires
        to <= elements.len(),
    ensures
        r@ == rendered(element_views(elements@), from as int, to as int, table_texts(vars@)),
    decreases to - from,
{
    let ghost e = element_views(elements@);
    let ghost values = table_texts(vars@);
    let ghost whole = rendered(e, from as int, to as int, values);
    let mut out = String::new();
    let mut i: usize = from;
    assert(out@ + whole =~= whole);
    assert(values.dom() =~= vars@.dom());
    while i < to
        invariant
            e == element_views(elements@),
            values == table_texts(vars@),
            values.dom() == vars@.dom(),
            from <= i,
            to <= elements.len(),
            i <= to || i == from,
            whole == rendered(e, from as int, to as int, values),
            whole == out@ + rendered(e, i as int, to as int, values),
        decreases to - i,
    {
        assert(e[i as int] == elements@[i as int]@);
        let ghost before = out@;
        match &elements[i] {
            TemplateElement::Literal(t) => {
                out.push_str(t.as_str());
                assert(before + (t@ + rendered(e, i + 1, to as int, values)) =~= out@ + rendered(
                    e,
                    i + 1,
                    to as int,
                    values,
                ));
                i = i + 1;
            },
            TemplateElement::Variable { name, default } => {
                let text = match vars.get(name.as_str()) {
                    Some(v) => v.as_str(),
                    None => match default {
                        Some(d) => d.as_str(),
                        None => "",
                    },
                };
                proof {
                    reveal_strlit("");
                    assert(text@ =~= value_of(values, name@, opt_str(*default)));
                }
                out.push_str(text);
                assert(before + (text@ + rendered(e, i + 1, to as int, values)) =~= out@
                    + rendered(e, i + 1, to as int, values));
                i = i + 1;
            },
            TemplateElement::ConditionalStart { name } => {
                let (alternative, end_mark) = find_marks(elements, i + 1, to);
                proof {
                    lemma_block_marks(e, to as int, i + 1, 0, None, i as int);
                }
                let end: usize = match end_mark {
                    Some(x) => x,
                    None => to,
                };
                let shown = match vars.get(name.as_str()) {
                    Some(v) => !v.as_str().is_empty(),
                    None => false,
                };
                assert(shown == has_value(values, name@));
                let block = if shown {
                    match alternative {
                        Some(a) => render_elements(elements, i + 1, a, vars),
                        None => render_elements(elements, i + 1, end, vars),
                    }
                } else {
                    match alternative {
                        Some(a) => render_elements(elements, a + 1, end, vars),
                        None => String::new(),
                    }
                };
                out.push_str(block.as_str());
                proof {
                    let rest = if end_mark is Some {
                        rendered(e, end + 1, to as int, values)
                    } else {
                        Seq::empty()
                    };
                    if !shown && alternative is None {
                        assert(block@ =~= Seq::<char>::empty());
                    }
                    assert(rendered(e, i as int, to as int, values) == block@ + rest);
                    assert(before + (block@ + rest) =~= out@ + rest);
                }
                if end_mark.is_none() {
                    assert(out@ + Seq::<char>::empty() =~= out@);
                    return out;
                }
                i = end + 1;
            },
            TemplateElement::ConditionalElse => {
                i = i + 1;
            },
            TemplateElement::ConditionalEnd => {
                i = i + 1;
            },
        }
    }
    assert(out@ + Seq::<char>::empty() =~= out@);
    out
}

// ── Manager ─────────────────────────────────────────────────────────────────────────────────

/// Templates by name.
pub struct PromptTemplateManager {
    templates: Table<String>,
}

/// The values of a list of names and values; of two values for a name the later one counts.
pub open spec fn pair_values(v: Seq<(&str, &str)>) -> Map<Seq<char>, Seq<char>>
    decreases v.len(),
{
    if v.len() == 0 {
        Map::empty()
    } else {
        pair_values(v.drop_last()).insert(v.last().0@, v.last().1@)
    }
}

fn collect_values(variables: &[(&str, &str)]) -> (r: Table<String>)
    ensures
        table_texts(r@) == pair_values(variables@),
{
    let mut t: Table<String> = Table::new();
    let mut i: usize = 0;
    assert(variables@.take(0) =~= Seq::empty());
    assert(table_texts(t@) =~= Map::<Seq<char>, Seq<char>>::empty());
    while i < variables.len()
        invariant
            i <= variables@.len(),
            table_texts(t@) == pair_values(variables@.take(i as int)),
        decreases variables@.len() - i,
    {
        let ghost before = t@;
        let p = variables[i];
        let value = p.1.to_owned();
        let _ = t.insert(p.0.to_owned(), value);
        assert(variables@.take(i + 1).drop_last() =~= variables@.take(i as int));
        assert(table_texts(t@) =~= table_texts(before).insert(p.0@, p.1@));
        i = i + 1;
    }
    assert(variables@.take(variables@.len() as int) =~= variables@);
    t
}

impl PromptTemplateManager {
    /// The templates by name.
    pub closed spec fn view(&self) -> Map<Seq<char>, Seq<char>> {
        table_texts(self.templates@)
    }

    /// No templates.
    pub fn new() -> (r: PromptTemplateManager)
        ensures
            r@ == Map::<Seq<char>, Seq<char>>::empty(),
    {
        let r = PromptTemplateManager { templates: Table::new() };
        assert(r@ =~= Map::<Seq<char>, Seq<char>>::empty());
        r
    }

    /// Sets a template.
    pub fn register(&mut self, name: &str, template: &str)
        ensures
            final(self)@ == old(self)@.insert(name@, template@),
    {
        let _ = self.templates.insert(name.to_owned(), template.to_owned());
        assert(self@ =~= old(self)@.insert(name@, template@));
    }

    /// Removes a template; `false` where there is none with the name.
    pub fn remove(&mut self, name: &str) -> (r: bool)
        ensures
            r == old(self)@.contains_key(name@),
            final(self)@ == old(self)@.remove(name@),
    {
        let r = self.templates.remove(name);
        assert(self@ =~= old(self)@.remove(name@));
        r.is_some()
    }

    /// Whether there is a template with the name.
    pub fn contains(&self, name: &str) -> (r: bool)
        ensures
            r == self@.contains_key(name@),
    {
        self.templates.contains_key(name)
    }

    /// The names of the templates, in no particular order.
    pub fn template_names(&self) -> (r: Vec<String>)
        ensures
            strs(r@).no_duplicates(),
            strs(r@).to_set() == self@.dom(),
    {
        assert(self@.dom() =~= self.templates@.dom());
        self.templates.keys()
    }

    /// The text of a template with a name.
    pub fn render(&self, name: &str, variables: &[(&str, &str)]) -> (r: Result<String, ReactError>)
        ensures
            match r {
                Ok(t) => self@.contains_key(name@) && t@ == template_text(
                    self@[name@],
                    pair_values(variables@),
                ),
                Err(e) => !self@.contains_key(name@) && not_found(e, name@),
            },
    {
        match self.templates.get(name) {
            Some(t) => Ok(self.render_template(t.as_str(), variables)),
            None => {
                let mut m = concat("Prompt template '", name);
                m.push_str("' not found");
                Err(ReactError::Other(m))
            },
        }
    }

    /// The text of a template.
    pub fn render_template(&self, template: &str, variables: &[(&str, &str)]) -> (r: String)
        ensures
            r@ == template_text(template@, pair_values(variables@)),
    {
        let vars = collect_values(variables);
        let elements = parse_template(template);
        render_elements(&elements, 0, elements.len(), &vars)
    }

    /// The template with a name, as it was registered.
    pub fn get_template(&self, name: &str) -> (r: Option<String>)
        ensures
            opt_str(r) == if self@.contains_key(name@) {
                Some(self@[name@])
            } else {
                None
            },
    {
        match self.templates.get(name) {
            Some(t) => Some(t.clone()),
            None => None,
        }
    }

    /// The text of a template with a name; one without tags is its own text.
    pub fn render_or_raw(&self, name: &str, variables: &[(&str, &str)]) -> (r: Result<
        String,
        ReactError,
    >)
        ensures
            match r {
                Ok(t) => self@.contains_key(name@) && t@ == template_text(
                    self@[name@],
                    pair_values(variables@),
                ),
                Err(e) => !self@.contains_key(name@) && not_found(e, name@),
            },
    {
        if let Some(t) = self.templates.get(name) {
            if !contains_str(t.as_str(), "{{") {
                proof {
                    reveal_strlit("{{");
                    assert("{{"@ =~= seq!['{', '{']);
                    law_plain_text_is_its_own_text(t@, pair_values(variables@));
                }
                return Ok(t.clone());
            }
        }
        self.render(name, variables)
    }
}

/// Whether an error says that there is no template with a name.
pub open spec fn not_found(e: ReactError, name: Seq<char>) -> bool {
    e matches ReactError::Other(m) && m@ == "Prompt template '"@ + name + "' not found"@
}

impl Default for PromptTemplateManager {
    fn default() -> (r: PromptTemplateManager)
        ensures
            r@ == Map::<Seq<char>, Seq<char>>::empty(),
    {
        PromptTemplateManager::new()
    }
}

// ── Laws ────────────────────────────────────────────────────────────────────────────────────

/// A template without tags is its own text, whatever the variables.
pub proof fn law_plain_text_is_its_own_text(s: Seq<char>, vars: Map<Seq<char>, Seq<char>>)
    requires
        !contains(s, seq!['{', '{']),
    ensures
        template_text(s, vars) == s,
{
    let open = seq!['{', '{'];
    lemma_find_from(s, open, 0);
    if let Some(p) = find_from(s, open, 0) {
        assert(crate::text::occurs_at(s, open, p));
        assert(contains(s, open));
    }
    let e = parsed(s, 0);
    if s.len() == 0 {
        assert(s =~= Seq::<char>::empty());
    } else {
        assert(s.subrange(0, s.len() as int) =~= s);
        assert(rendered(e, 1, 1, vars) =~= Seq::<char>::empty());
        assert(s + Seq::<char>::empty() =~= s);
    }
}

/// A block is shown exactly as its first part where the variable has a value that is not empty, and
/// as its alternative otherwise.
pub proof fn law_block_shows_one_part(
    yes: Seq<char>,
    no: Seq<char>,
    name: Seq<char>,
    vars: Map<Seq<char>, Seq<char>>,
)
    ensures
        rendered(
            seq![
                ElementView::Start(name),
                ElementView::Literal(yes),
                ElementView::Else,
                ElementView::Literal(no),
                ElementView::End,
            ],
            0,
            5,
            vars,
        ) == if has_value(vars, name) {
            yes
        } else {
            no
        },
{
    let e = seq![
        ElementView::Start(name),
        ElementView::Literal(yes),
        ElementView::Else,
        ElementView::Literal(no),
        ElementView::End,
    ];
    reveal_with_fuel(block_marks, 6);
    reveal_with_fuel(rendered, 4);
    assert(block_marks(e, 5, 1, 0, None) == (Some(2int), Some(4int)));
    assert(yes + Seq::<char>::empty() + Seq::<char>::empty() =~= yes);
    assert(no + Seq::<char>::empty() + Seq::<char>::empty() =~= no);
}

/// Of two templates registered under one name the later is shown, and no other name is touched.
pub proof fn law_latest_template_counts(
    m: Map<Seq<char>, Seq<char>>,
    name: Seq<char>,
    first: Seq<char>,
    second: Seq<char>,
    other: Seq<char>,
    vars: Map<Seq<char>, Seq<char>>,
)
    requires
        other != name,
    ensures
        ({
            let after = m.insert(name, first).insert(name, second);
            &&& after == m.insert(name, second)
            &&& template_text(after[name], vars) == template_text(second, vars)
            &&& after.contains_key(other) == m.contains_key(other)
            &&& m.contains_key(other) ==> template_text(after[other], vars) == template_text(
                m[other],
                vars,
            )
        }),
{
    assert(m.insert(name, first).insert(name, second) =~= m.insert(name, second));
}

/// Whether in the pieces from `from` to `to` every block that begins ends, with `depth` blocks open at
/// the beginning and none at the end, and no alternative stands outside a block.
pub open spec fn balanced_from(e: Seq<ElementView>, from: int, to: int, depth: nat) -> bool
    decreases to - from,
{
    if from >= to {
        depth == 0
    } else {
        match e[from] {
            ElementView::Start(_) => balanced_from(e, from + 1, to, depth + 1),
            ElementView::End => depth > 0 && balanced_from(e, from + 1, to, (depth - 1) as nat),
            ElementView::Else => depth > 0 && balanced_from(e, from + 1, to, depth),
            _ => balanced_from(e, from + 1, to, depth),
        }
    }
}

/// Whether every block among the pieces begins and ends there, and no alternative stands outside a
/// block.
pub open spec fn balanced(e: Seq<ElementView>) -> bool {
    balanced_from(e, 0, e.len() as int, 0)
}

/// The text of pieces.
pub open spec fn text_of(e: Seq<ElementView>, vars: Map<Seq<char>, Seq<char>>) -> Seq<char> {
    rendered(e, 0, e.len() as int, vars)
}

spec fn moved(o: Option<int>, d: int) -> Option<int> {
    match o {
        Some(x) => Some(x + d),
        None => None,
    }
}

proof fn lemma_marks_move(
    e: Seq<ElementView>,
    f: Seq<ElementView>,
    d: int,
    to: int,
    j: int,
    depth: nat,
    alternative: Option<int>,
)
    requires
        forall|k: int| j <= k < to ==> #[trigger] e[k] == f[k + d],
    ensures
        block_marks(f, to + d, j + d, depth, moved(alternative, d)) == (
            moved(block_marks(e, to, j, depth, alternative).0, d),
            moved(block_marks(e, to, j, depth, alternative).1, d),
        ),
    decreases to - j,
{
    if j < to {
        assert(e[j] == f[j + d]);
        match e[j] {
            ElementView::Start(_) => {
                lemma_marks_move(e, f, d, to, j + 1, depth + 1, alternative);
            },
            ElementView::End => {
                if depth > 0 {
                    lemma_marks_move(e, f, d, to, j + 1, (depth - 1) as nat, alternative);
                }
            },
            ElementView::Else => {
                if depth == 0 {
                    lemma_marks_move(e, f, d, to, j + 1, depth, Some(j));
                } else {
                    lemma_marks_move(e, f, d, to, j + 1, depth, alternative);
                }
            },
            _ => {
                lemma_marks_move(e, f, d, to, j + 1, depth, alternative);
            },
        }
    }
}

proof fn lemma_rendered_moves(
    e: Seq<ElementView>,
    f: Seq<ElementView>,
    d: int,
    from: int,
    to: int,
    vars: Map<Seq<char>, Seq<char>>,
)
    requires
        forall|k: int| from <= k < to ==> #[trigger] e[k] == f[k + d],
    ensures
        rendered(f, from + d, to + d, vars) == rendered(e, from, to, vars),
    decreases to - from,
{
    if from < to {
        assert(e[from] == f[from + d]);
        match e[from] {
            ElementView::Start(n) => {
                let (alternative, end_mark) = block_marks(e, to, from + 1, 0, None);
                lemma_marks_move(e, f, d, to, from + 1, 0, None);
                lemma_block_marks(e, to, from + 1, 0, None, from);
                let end = match end_mark {
                    Some(x) => x,
                    None => to,
                };
                if has_value(vars, n) {
                    match alternative {
                        Some(a) => {
                            lemma_rendered_moves(e, f, d, from + 1, a, vars);
                        },
                        None => {
                            lemma_rendered_moves(e, f, d, from + 1, end, vars);
                        },
                    }
                } else {
                    if let Some(a) = alternative {
                        lemma_rendered_moves(e, f, d, a + 1, end, vars);
                    }
                }
                if let Some(x) = end_mark {
                    lemma_rendered_moves(e, f, d, x + 1, to, vars);
                }
            },
            _ => {
                lemma_rendered_moves(e, f, d, from + 1, to, vars);
            },
        }
    }
}

/// The text of pieces among others is their text.
proof fn lemma_rendered_part(
    e: Seq<ElementView>,
    from: int,
    to: int,
    vars: Map<Seq<char>, Seq<char>>,
)
    requires
        0 <= from <= to <= e.len(),
    ensures
        rendered(e, from, to, vars) == text_of(e.subrange(from, to), vars),
{
    let f = e.subrange(from, to);
    assert forall|k: int| 0 <= k < f.len() implies #[trigger] f[k] == e[k + from] by {}
    lemma_rendered_moves(f, e, from, 0, f.len() as int, vars);
}

proof fn lemma_balanced_moves(
    e: Seq<ElementView>,
    f: Seq<ElementView>,
    d: int,
    from: int,
    to: int,
    depth: nat,
)
    requires
        balanced_from(e, from, to, depth),
        forall|k: int| from <= k < to ==> #[trigger] e[k] == f[k + d],
    ensures
        balanced_from(f, from + d, to + d, depth),
    decreases to - from,
{
    if from < to {
        assert(e[from] == f[from + d]);
        match e[from] {
            ElementView::Start(_) => {
                lemma_balanced_moves(e, f, d, from + 1, to, depth + 1);
            },
            ElementView::End => {
                lemma_balanced_moves(e, f, d, from + 1, to, (depth - 1) as nat);
            },
            _ => {
                lemma_balanced_moves(e, f, d, from + 1, to, depth);
            },
        }
    }
}

/// Balanced pieces within a block hold none of its marks.
proof fn lemma_marks_behind(
    e: Seq<ElementView>,
    to: int,
    j: int,
    mid: int,
    open: nat,
    depth: nat,
    alternative: Option<int>,
)
    requires
        j <= mid <= to,
        balanced_from(e, j, mid, open),
    ensures
        block_marks(e, to, j, depth + open, alternative) == block_marks(
            e,
            to,
            mid,
            depth,
            alternative,
        ),
    decreases mid - j,
{
    if j < mid {
        match e[j] {
            ElementView::Start(_) => {
                lemma_marks_behind(e, to, j + 1, mid, open + 1, depth, alternative);
            },
            ElementView::End => {
                lemma_marks_behind(e, to, j + 1, mid, (open - 1) as nat, depth, alternative);
            },
            _ => {
                lemma_marks_behind(e, to, j + 1, mid, open, depth, alternative);
            },
        }
    }
}

/// A block that ends before `mid` has the same marks however far they are looked for, and what stands
/// behind it up to `mid` is balanced.
proof fn lemma_block_closes(
    e: Seq<ElementView>,
    to: int,
    j: int,
    mid: int,
    depth: nat,
    alternative: Option<int>,
)
    requires
        j <= mid <= to,
        balanced_from(e, j, mid, depth + 1),
    ensures
        block_marks(e, to, j, depth, alternative) == block_marks(e, mid, j, depth, alternative),
        ({
            let end = block_marks(e, mid, j, depth, alternative).1;
            end is Some && j <= end->0 < mid && balanced_from(e, end->0 + 1, mid, 0)
        }),
    decreases mid - j,
{
    if j < mid {
        match e[j] {
            ElementView::Start(_) => {
                lemma_block_closes(e, to, j + 1, mid, depth + 1, alternative);
            },
            ElementView::End => {
                if depth > 0 {
                    lemma_block_closes(e, to, j + 1, mid, (depth - 1) as nat, alternative);
                }
            },
            ElementView::Else => {
                if depth == 0 {
                    lemma_block_closes(e, to, j + 1, mid, depth, Some(j));
                } else {
                    lemma_block_closes(e, to, j + 1, mid, depth, alternative);
                }
            },
            _ => {
                lemma_block_closes(e, to, j + 1, mid, depth, alternative);
            },
        }
    }
}

proof fn lemma_rendered_in_two(
    e: Seq<ElementView>,
    from: int,
    mid: int,
    to: int,
    vars: Map<Seq<char>, Seq<char>>,
)
    requires
        from <= mid <= to,
        balanced_from(e, from, mid, 0),
    ensures
        rendered(e, from, to, vars) == rendered(e, from, mid, vars) + rendered(e, mid, to, vars),
    decreases mid - from,
{
    let rest = rendered(e, mid, to, vars);
    if from == mid {
        assert(Seq::<char>::empty() + rest =~= rest);
    } else {
        match e[from] {
            ElementView::Literal(t) => {
                lemma_rendered_in_two(e, from + 1, mid, to, vars);
                let a = rendered(e, from + 1, mid, vars);
                assert(t + (a + rest) =~= t + a + rest);
            },
            ElementView::Variable(n, d) => {
                lemma_rendered_in_two(e, from + 1, mid, to, vars);
                let a = rendered(e, from + 1, mid, vars);
                let t = value_of(vars, n, d);
                assert(t + (a + rest) =~= t + a + rest);
            },
            ElementView::Start(n) => {
                lemma_block_closes(e, to, from + 1, mid, 0, None);
                lemma_block_marks(e, mid, from + 1, 0, None, from);
                let (alternative, end_mark) = block_marks(e, mid, from + 1, 0, None);
                let end = end_mark->0;
                lemma_rendered_in_two(e, end + 1, mid, to, vars);
                let a = rendered(e, end + 1, mid, vars);
                let block = if has_value(vars, n) {
                    match alternative {
                        Some(x) => rendered(e, from + 1, x, vars),
                        None => rendered(e, from + 1, end, vars),
                    }
                } else {
                    match alternative {
                        Some(x) => rendered(e, x + 1, end, vars),
                        None => Seq::empty(),
                    }
                };
                assert(rendered(e, from, to, vars) == block + rendered(e, end + 1, to, vars));
                assert(rendered(e, from, mid, vars) == block + a);
                assert(block + (a + rest) =~= block + a + rest);
            },
            _ => {},
        }
    }
}

/// The text of pieces that follow balanced ones is the text of the first followed by the text of the
/// others.
pub proof fn law_texts_follow_each_other(
    a: Seq<ElementView>,
    b: Seq<ElementView>,
    vars: Map<Seq<char>, Seq<char>>,
)
    requires
        balanced(a),
    ensures
        text_of(a + b, vars) == text_of(a, vars) + text_of(b, vars),
{
    let e = a + b;
    let n = a.len() as int;
    assert forall|k: int| 0 <= k < n implies #[trigger] a[k] == e[k + 0] by {}
    lemma_balanced_moves(a, e, 0, 0, n, 0);
    lemma_rendered_in_two(e, 0, n, e.len() as int, vars);
    lemma_rendered_part(e, 0, n, vars);
    lemma_rendered_part(e, n, e.len() as int, vars);
    assert(e.subrange(0, n) =~= a);
    assert(e.subrange(n, e.len() as int) =~= b);
}

/// Text is shown as it is. A variable is shown as its value, else as its default, else as nothing.
pub proof fn law_single_pieces_are_shown(
    t: Seq<char>,
    name: Seq<char>,
    default: Option<Seq<char>>,
    vars: Map<Seq<char>, Seq<char>>,
)
    ensures
        text_of(seq![ElementView::Literal(t)], vars) == t,
        vars.contains_key(name) ==> text_of(seq![ElementView::Variable(name, default)], vars)
            == vars[name],
        !vars.contains_key(name) && default is Some ==> text_of(
            seq![ElementView::Variable(name, default)],
            vars,
        ) == default->0,
        !vars.contains_key(name) && default is None ==> text_of(
            seq![ElementView::Variable(name, default)],
            vars,
        ) == Seq::<char>::empty(),
{
    let a = seq![ElementView::Literal(t)];
    let b = seq![ElementView::Variable(name, default)];
    assert(rendered(a, 1, 1, vars) =~= Seq::<char>::empty());
    assert(rendered(b, 1, 1, vars) =~= Seq::<char>::empty());
    assert(t + Seq::<char>::empty() =~= t);
    let v = value_of(vars, name, default);
    assert(v + Seq::<char>::empty() =~= v);
}

/// A block of any pieces with an alternative is shown as its first part where its variable has a value
/// that is not empty, and as its alternative otherwise, each of them whole; what stands behind the
/// block follows.
pub proof fn law_block_shows_a_whole_part(
    name: Seq<char>,
    yes: Seq<ElementView>,
    no: Seq<ElementView>,
    rest: Seq<ElementView>,
    vars: Map<Seq<char>, Seq<char>>,
)
    requires
        balanced(yes),
        balanced(no),
    ensures
        text_of(
            seq![ElementView::Start(name)] + yes + seq![ElementView::Else] + no + seq![
                ElementView::End,
            ] + rest,
            vars,
        ) == (if vars.contains_key(name) && vars[name].len() > 0 {
            text_of(yes, vars)
        } else {
            text_of(no, vars)
        }) + text_of(rest, vars),
{
    let e = seq![ElementView::Start(name)] + yes + seq![ElementView::Else] + no + seq![
        ElementView::End,
    ] + rest;
    let y = yes.len() as int;
    let n = no.len() as int;
    let to = e.len() as int;
    let a = y + 1;
    let end = a + 1 + n;
    assert(e[0] == ElementView::Start(name));
    assert(e[a] == ElementView::Else);
    assert(e[end] == ElementView::End);
    assert forall|k: int| 0 <= k < y implies #[trigger] yes[k] == e[k + 1] by {}
    assert forall|k: int| 0 <= k < n implies #[trigger] no[k] == e[k + (a + 1)] by {}
    lemma_balanced_moves(yes, e, 1, 0, y, 0);
    lemma_balanced_moves(no, e, a + 1, 0, n, 0);
    lemma_marks_behind(e, to, 1, a, 0, 0, None);
    lemma_marks_behind(e, to, a + 1, end, 0, 0, Some(a));
    assert(block_marks(e, to, a, 0, None) == block_marks(e, to, a + 1, 0, Some(a)));
    assert(block_marks(e, to, 1, 0, None) == (Some(a), Some(end)));
    lemma_rendered_part(e, 1, a, vars);
    lemma_rendered_part(e, a + 1, end, vars);
    lemma_rendered_part(e, end + 1, to, vars);
    assert(e.subrange(1, a) =~= yes);
    assert(e.subrange(a + 1, end) =~= no);
    assert(e.subrange(end + 1, to) =~= rest);
}

/// A block of any pieces without an alternative is shown whole where its variable has a value that is
/// not empty, and not at all otherwise; what stands behind the block follows.
pub proof fn law_block_without_alternative(
    name: Seq<char>,
    yes: Seq<ElementView>,
    rest: Seq<ElementView>,
    vars: Map<Seq<char>, Seq<char>>,
)
    requires
        balanced(yes),
    ensures
        text_of(seq![ElementView::Start(name)] + yes + seq![ElementView::End] + rest, vars) == (
        if vars.contains_key(name) && vars[name].len() > 0 {
            text_of(yes, vars)
        } else {
            Seq::empty()
        }) + text_of(rest, vars),
{
    let e = seq![ElementView::Start(name)] + yes + seq![ElementView::End] + rest;
    let end = yes.len() as int + 1;
    let to = e.len() as int;
    assert(e[0] == ElementView::Start(name));
    assert(e[end] == ElementView::End);
    assert forall|k: int| 0 <= k < yes.len() implies #[trigger] yes[k] == e[k + 1] by {}
    lemma_balanced_moves(yes, e, 1, 0, yes.len() as int, 0);
    lemma_marks_behind(e, to, 1, end, 0, 0, None);
    assert(block_marks(e, to, 1, 0, None) == (None::<int>, Some(end)));
    lemma_rendered_part(e, 1, end, vars);
    lemma_rendered_part(e, end + 1, to, vars);
    assert(e.subrange(1, end) =~= yes);
    assert(e.subrange(end + 1, to) =~= rest);
}

/// A block that is left open reaches to the end: it is shown as its first part or as its alternative.
pub proof fn law_open_block_reaches_to_the_end(
    name: Seq<char>,
    yes: Seq<ElementView>,
    no: Seq<ElementView>,
    vars: Map<Seq<char>, Seq<char>>,
)
    requires
        balanced(yes),
        balanced(no),
    ensures
        text_of(seq![ElementView::Start(name)] + yes, vars) == if vars.contains_key(name)
            && vars[name].len() > 0 {
            text_of(yes, vars)
        } else {
            Seq::empty()
        },
        text_of(seq![ElementView::Start(name)] + yes + seq![ElementView::Else] + no, vars) == if
        vars.contains_key(name) && vars[name].len() > 0 {
            text_of(yes, vars)
        } else {
            text_of(no, vars)
        },
{
    let y = yes.len() as int;
    let n = no.len() as int;
    let a = y + 1;
    let e = seq![ElementView::Start(name)] + yes;
    assert forall|k: int| 0 <= k < y implies #[trigger] yes[k] == e[k + 1] by {}
    lemma_balanced_moves(yes, e, 1, 0, y, 0);
    lemma_marks_behind(e, a, 1, a, 0, 0, None);
    lemma_rendered_part(e, 1, a, vars);
    assert(e.subrange(1, a) =~= yes);
    assert(e[0] == ElementView::Start(name));
    let ty = text_of(yes, vars);
    assert(ty + Seq::<char>::empty() =~= ty);
    assert(Seq::<char>::empty() + Seq::<char>::empty() =~= Seq::<char>::empty());
    let f = seq![ElementView::Start(name)] + yes + seq![ElementView::Else] + no;
    let to = f.len() as int;
    assert(f[0] == ElementView::Start(name));
    assert(f[a] == ElementView::Else);
    assert forall|k: int| 0 <= k < y implies #[trigger] yes[k] == f[k + 1] by {}
    assert forall|k: int| 0 <= k < n implies #[trigger] no[k] == f[k + (a + 1)] by {}
    lemma_balanced_moves(yes, f, 1, 0, y, 0);
    lemma_balanced_moves(no, f, a + 1, 0, n, 0);
    lemma_marks_behind(f, to, 1, a, 0, 0, None);
    lemma_marks_behind(f, to, a + 1, to, 0, 0, Some(a));
    assert(block_marks(f, to, a, 0, None) == block_marks(f, to, a + 1, 0, Some(a)));
    lemma_rendered_part(f, 1, a, vars);
    lemma_rendered_part(f, a + 1, to, vars);
    assert(f.subrange(1, a) =~= yes);
    assert(f.subrange(a + 1, to) =~= no);
    let tn = text_of(no, vars);
    assert(tn + Seq::<char>::empty() =~= tn);
}

proof fn lemma_parsed_behind(s: Seq<char>, k: int, from: int)
    requires
        0 <= k <= from,
        k <= s.len(),
    ensures
        parsed(s.subrange(k, s.len() as int), from - k) == parsed(s, from),
    decreases s.len() - from,
{
    let open = seq!['{', '{'];
    let close = seq!['}', '}'];
    let t = s.subrange(k, s.len() as int);
    if from < s.len() {
        lemma_find_shift(s, open, k, from);
        lemma_find_from(s, open, from);
        assert(t.subrange(from - k, t.len() as int) =~= s.subrange(from, s.len() as int));
        if let Some(p) = find_from(s, open, from) {
            lemma_find_shift(s, close, k, p + 2);
            lemma_find_from(s, close, p + 2);
            if let Some(c) = find_from(s, close, p + 2) {
                assert(t.subrange(from - k, p - k) =~= s.subrange(from, p));
                assert(t.subrange(p - k + 2, c - k) =~= s.subrange(p + 2, c));
                lemma_parsed_behind(s, k, c + 2);
            }
        }
    }
}

proof fn lemma_pair_found(s: Seq<char>, p: Seq<char>, from: int, i: int)
    requires
        p.len() == 2,
        0 <= from <= i,
        i + 2 <= s.len(),
        s.subrange(i, i + 2) == p,
        forall|k: int| from <= k < i ==> s[k] != p[0],
    ensures
        find_from(s, p, from) == Some(i),
    decreases i - from,
{
    if from < i {
        assert(s.subrange(from, from + 2)[0] == s[from]);
        lemma_pair_found(s, p, from + 1, i);
    }
}

proof fn lemma_pair_absent(s: Seq<char>, p: Seq<char>, from: int)
    requires
        p.len() == 2,
        0 <= from,
        forall|k: int| from <= k < s.len() ==> s[k] != p[0],
    ensures
        find_from(s, p, from) is None,
    decreases s.len() - from,
{
    if from + 2 <= s.len() {
        assert(s.subrange(from, from + 2)[0] == s[from]);
        lemma_pair_absent(s, p, from + 1);
    }
}

/// A template that begins with text and a tag has the text and what the tag stands for as its first
/// pieces, and those of the rest behind them.
pub proof fn law_template_is_cut_at_its_tags(text: Seq<char>, tag: Seq<char>, rest: Seq<char>)
    requires
        !text.contains('{'),
        !tag.contains('}'),
    ensures
        parsed(text + seq!['{', '{'] + tag + seq!['}', '}'] + rest, 0) == (if text.len() > 0 {
            seq![ElementView::Literal(text)]
        } else {
            Seq::empty()
        }) + tag_elements(tag) + parsed(rest, 0),
{
    let open = seq!['{', '{'];
    let close = seq!['}', '}'];
    let s = text + open + tag + close + rest;
    let p = text.len() as int;
    let c = p + 2 + tag.len();
    assert forall|k: int| 0 <= k < p implies s[k] != '{' by {
        assert(text.contains(text[k]));
    }
    assert forall|k: int| p + 2 <= k < c implies s[k] != '}' by {
        assert(tag.contains(tag[k - p - 2]));
    }
    assert(s.subrange(p, p + 2) =~= open);
    assert(s.subrange(c, c + 2) =~= close);
    lemma_pair_found(s, open, 0, p);
    lemma_pair_found(s, close, p + 2, c);
    assert(s.subrange(0, p) =~= text);
    assert(s.subrange(p + 2, c) =~= tag);
    lemma_parsed_behind(s, c + 2, c + 2);
    assert(s.subrange(c + 2, s.len() as int) =~= rest);
}

/// A template whose first tag is left open is its own text.
pub proof fn law_open_tag_is_text(
    text: Seq<char>,
    rest: Seq<char>,
    vars: Map<Seq<char>, Seq<char>>,
)
    requires
        !text.contains('{'),
        !rest.contains('}'),
    ensures
        template_text(text + seq!['{', '{'] + rest, vars) == text + seq!['{', '{'] + rest,
{
    let open = seq!['{', '{'];
    let close = seq!['}', '}'];
    let s = text + open + rest;
    let p = text.len() as int;
    assert forall|k: int| 0 <= k < p implies s[k] != '{' by {
        assert(text.contains(text[k]));
    }
    assert forall|k: int| p + 2 <= k < s.len() implies s[k] != '}' by {
        assert(rest.contains(rest[k - p - 2]));
    }
    assert(s.subrange(p, p + 2) =~= open);
    lemma_pair_found(s, open, 0, p);
    lemma_pair_absent(s, close, p + 2);
    assert(s.subrange(0, s.len() as int) =~= s);
    law_single_pieces_are_shown(s, s, None, vars);
    assert(parsed(s, 0) =~= seq![ElementView::Literal(s)]);
}

/// Whether a text has at least one character, and no white space at its ends.
pub open spec fn bare(t: Seq<char>) -> bool {
    t.len() > 0 && !is_white(t[0]) && !is_white(t.last())
}

/// Whether a text is white space.
pub open spec fn blank(t: Seq<char>) -> bool {
    forall|i: int| 0 <= i < t.len() ==> is_white(#[trigger] t[i])
}

proof fn lemma_trim_start_padded(w: Seq<char>, t: Seq<char>)
    requires
        blank(w),
        t.len() > 0 ==> !is_white(t[0]),
    ensures
        trim_start(w + t) == t,
    decreases w.len(),
{
    if w.len() == 0 {
        assert(w + t =~= t);
    } else {
        assert(is_white(w[0]));
        assert((w + t).drop_first() =~= w.drop_first() + t);
        assert forall|i: int| 0 <= i < w.drop_first().len() implies is_white(
            #[trigger] w.drop_first()[i],
        ) by {
            assert(is_white(w[i + 1]));
        }
        lemma_trim_start_padded(w.drop_first(), t);
    }
}

proof fn lemma_trim_end_padded(t: Seq<char>, v: Seq<char>)
    requires
        blank(v),
        t.len() > 0 ==> !is_white(t.last()),
    ensures
        trim_end(t + v) == t,
    decreases v.len(),
{
    if v.len() == 0 {
        assert(t + v =~= t);
    } else {
        assert(is_white(v[v.len() - 1]));
        assert((t + v).drop_last() =~= t + v.drop_last());
        assert forall|i: int| 0 <= i < v.drop_last().len() implies is_white(
            #[trigger] v.drop_last()[i],
        ) by {
            assert(is_white(v[i]));
        }
        lemma_trim_end_padded(t, v.drop_last());
    }
}

proof fn lemma_trim_padded(w: Seq<char>, t: Seq<char>, v: Seq<char>)
    requires
        blank(w),
        blank(v),
        bare(t),
    ensures
        trim(w + t + v) == t,
{
    assert(w + t + v =~= w + (t + v));
    lemma_trim_start_padded(w, t + v);
    lemma_trim_end_padded(t, v);
}

proof fn lemma_char_absent(s: Seq<char>, c: char, from: int)
    requires
        0 <= from,
        forall|i: int| from <= i < s.len() ==> s[i] != c,
    ensures
        char_from(s, c, from) is None,
    decreases s.len() - from,
{
    if from < s.len() {
        lemma_char_absent(s, c, from + 1);
    }
}

proof fn lemma_char_first(s: Seq<char>, c: char, from: int, i: int)
    requires
        0 <= from <= i < s.len(),
        s[i] == c,
        forall|k: int| from <= k < i ==> s[k] != c,
    ensures
        char_from(s, c, from) == Some(i),
    decreases i - from,
{
    if from < i {
        lemma_char_first(s, c, from + 1, i);
    }
}

/// What a tag says, with any white space around it. A name is the variable of that name. A name and a
/// text behind a colon are the variable with the text as its default. `#if` and a name begin a block
/// that depends on the variable, `#else` begins its alternative, and `#endif` ends it.
pub proof fn law_tags_are_read(
    w: Seq<char>,
    name: Seq<char>,
    default: Seq<char>,
    v: Seq<char>,
)
    requires
        blank(w),
        blank(v),
        bare(name),
        bare(default),
    ensures
        !name.contains(':') && name[0] != '#' ==> tag_elements(w + name + v) == seq![
            ElementView::Variable(name, None),
        ],
        !name.contains(':') && name[0] != '#' ==> tag_elements(
            w + (name + seq![':'] + default) + v,
        ) == seq![ElementView::Variable(name, Some(default))],
        !name.contains(':') && name[0] != '#' ==> tag_elements(
            w + (name + v + seq![':'] + w + default) + v,
        ) == seq![ElementView::Variable(name, Some(default))],
        tag_elements(w + ("#if "@ + name) + v) == seq![ElementView::Start(name)],
        tag_elements(w + ("#if "@ + w + name) + v) == seq![ElementView::Start(name)],
        tag_elements(w + "#else"@ + v) == seq![ElementView::Else],
        tag_elements(w + "#endif"@ + v) == seq![ElementView::End],
        tag_elements(w) == Seq::<ElementView>::empty(),
{
    reveal_strlit("#if ");
    reveal_strlit("#else");
    reveal_strlit("#endif");
    assert(!is_white('#') && !is_white('e') && !is_white('f'));
    lemma_trim_padded(w, name, v);
    let full = name + seq![':'] + default;
    assert(full[0] == name[0] && full.last() == default.last());
    lemma_trim_padded(w, full, v);
    if !name.contains(':') && name[0] != '#' {
        if "#if "@.is_prefix_of(name) {
            assert(name[0] == "#if "@[0]);
        }
        if "#if "@.is_prefix_of(full) {
            assert(full[0] == "#if "@[0]);
        }
        assert(name != "#else"@ && name != "#endif"@) by {
            assert("#else"@[0] == '#' && "#endif"@[0] == '#');
        }
        assert(full != "#else"@ && full != "#endif"@) by {
            assert("#else"@[0] == '#' && "#endif"@[0] == '#');
        }
        assert forall|i: int| 0 <= i < name.len() implies name[i] != ':' by {
            assert(name.contains(name[i]));
        }
        lemma_char_absent(name, ':', 0);
        lemma_char_first(full, ':', 0, name.len() as int);
        assert(full.take(name.len() as int) =~= name);
        assert(full.subrange(name.len() as int + 1, full.len() as int) =~= default);
        lemma_trim_padded(Seq::empty(), name, Seq::empty());
        lemma_trim_padded(Seq::empty(), default, Seq::empty());
        assert(Seq::<char>::empty() + name + Seq::<char>::empty() =~= name);
        assert(Seq::<char>::empty() + default + Seq::<char>::empty() =~= default);
    }
    if !name.contains(':') && name[0] != '#' {
        let apart = name + v + seq![':'] + w + default;
        assert(apart[0] == name[0] && apart.last() == default.last());
        lemma_trim_padded(w, apart, v);
        if "#if "@.is_prefix_of(apart) {
            assert(apart[0] == "#if "@[0]);
        }
        assert(apart != "#else"@ && apart != "#endif"@) by {
            assert("#else"@[0] == '#' && "#endif"@[0] == '#');
        }
        let k = (name.len() + v.len()) as int;
        assert forall|i: int| 0 <= i < k implies apart[i] != ':' by {
            if i < name.len() {
                assert(name.contains(name[i]));
            } else {
                assert(is_white(v[i - name.len()]));
                assert(!is_white(':'));
            }
        }
        lemma_char_first(apart, ':', 0, k);
        let e = Seq::<char>::empty();
        assert(apart.take(k) =~= e + name + v);
        lemma_trim_padded(e, name, v);
        assert(apart.subrange(k + 1, apart.len() as int) =~= w + default + e);
        lemma_trim_padded(w, default, e);
    }
    let far = "#if "@ + w + name;
    assert(far[0] == '#' && far.last() == name.last());
    lemma_trim_padded(w, far, v);
    assert("#if "@ =~= far.take(4));
    assert(far.subrange(4, far.len() as int) =~= w + name + Seq::<char>::empty());
    lemma_trim_padded(w, name, Seq::empty());
    let start = "#if "@ + name;
    assert(start[0] == '#' && start.last() == name.last());
    lemma_trim_padded(w, start, v);
    assert("#if "@ =~= start.take(4));
    assert(start.subrange(4, start.len() as int) =~= name);
    lemma_trim_padded(Seq::empty(), name, Seq::empty());
    assert(Seq::<char>::empty() + name + Seq::<char>::empty() =~= name);
    lemma_trim_padded(w, "#else"@, v);
    lemma_trim_padded(w, "#endif"@, v);
    if "#if "@.is_prefix_of("#else"@) {
        assert("#if "@[1] == "#else"@[1]);
    }
    if "#if "@.is_prefix_of("#endif"@) {
        assert("#if "@[1] == "#endif"@[1]);
    }
    assert("#else"@[2] != "#endif"@[2]);
    lemma_trim_start_padded(w, Seq::empty());
    assert(w + Seq::<char>::empty() =~= w);
    assert(trim(w).len() == 0);
    if "#if "@.is_prefix_of(trim(w)) {
        assert(false);
    }
}

/// A variable in a template is shown in its place, as its value or, where it has none, as nothing; the
/// text before it stays and the rest of the template follows.
pub proof fn law_variable_is_shown_in_its_place(
    text: Seq<char>,
    name: Seq<char>,
    rest: Seq<char>,
    vars: Map<Seq<char>, Seq<char>>,
)
    requires
        !text.contains('{'),
        bare(name),
        !name.contains('}') && !name.contains(':') && name[0] != '#',
    ensures
        template_text(text + seq!['{', '{'] + name + seq!['}', '}'] + rest, vars) == text + (
        if vars.contains_key(name) {
            vars[name]
        } else {
            Seq::empty()
        }) + template_text(rest, vars),
{
    let value = if vars.contains_key(name) {
        vars[name]
    } else {
        Seq::empty()
    };
    law_template_is_cut_at_its_tags(text, name, rest);
    law_tags_are_read(Seq::empty(), name, name, Seq::empty());
    assert(Seq::<char>::empty() + name + Seq::<char>::empty() =~= name);
    let lit = literal(text);
    let var = seq![ElementView::Variable(name, None)];
    let more = parsed(rest, 0);
    law_single_pieces_are_shown(text, name, None, vars);
    assert(balanced(var)) by {
        reveal_with_fuel(balanced_from, 2);
    }
    assert(balanced(lit)) by {
        reveal_with_fuel(balanced_from, 2);
    }
    law_texts_follow_each_other(lit, var + more, vars);
    law_texts_follow_each_other(var, more, vars);
    assert(lit + var + more =~= lit + (var + more));
    if text.len() == 0 {
        assert(text_of(lit, vars) =~= text);
    }
    assert(text + (value + text_of(more, vars)) =~= text + value + text_of(more, vars));
}

/// The value of a variable is the one that was given for it last; a variable that none was given for
/// has none.
pub proof fn law_last_given_value_counts(v: Seq<(&str, &str)>, i: int, name: Seq<char>)
    ensures
        0 <= i < v.len() && (forall|k: int| i < k < v.len() ==> (#[trigger] v[k]).0@ != v[i].0@)
            ==> pair_values(v).contains_key(v[i].0@) && pair_values(v)[v[i].0@] == v[i].1@,
        pair_values(v).contains_key(name) ==> exists|k: int|
            0 <= k < v.len() && (#[trigger] v[k]).0@ == name,
    decreases v.len(),
{
    if v.len() > 0 {
        let front = v.drop_last();
        law_last_given_value_counts(front, i, name);
        assert(v[v.len() - 1] == v.last());
        assert(forall|k: int| 0 <= k < front.len() ==> #[trigger] front[k] == v[k]);
        if 0 <= i < front.len() && (forall|k: int|
            i < k < v.len() ==> (#[trigger] v[k]).0@ != v[i].0@) {
            assert forall|k: int| i < k < front.len() implies (#[trigger] front[k]).0@
                != front[i].0@ by {
                assert(front[k] == v[k]);
            }
        }
        if pair_values(v).contains_key(name) && v.last().0@ != name {
            let k = choose|k: int| 0 <= k < front.len() && (#[trigger] front[k]).0@ == name;
            assert(v[k].0@ == name);
        }
    }
}

/// Of several alternatives of a block the last counts: what stands before it belongs to the first part.
pub proof fn law_last_alternative_counts(
    name: Seq<char>,
    yes: Seq<ElementView>,
    more: Seq<ElementView>,
    no: Seq<ElementView>,
    rest: Seq<ElementView>,
    vars: Map<Seq<char>, Seq<char>>,
)
    requires
        balanced(yes),
        balanced(more),
        balanced(no),
    ensures
        text_of(
            seq![ElementView::Start(name)] + yes + seq![ElementView::Else] + more + seq![
                ElementView::Else,
            ] + no + seq![ElementView::End] + rest,
            vars,
        ) == (if vars.contains_key(name) && vars[name].len() > 0 {
            text_of(yes, vars) + text_of(more, vars)
        } else {
            text_of(no, vars)
        }) + text_of(rest, vars),
{
    let e = seq![ElementView::Start(name)] + yes + seq![ElementView::Else] + more + seq![
        ElementView::Else,
    ] + no + seq![ElementView::End] + rest;
    let a = yes.len() as int + 1;
    let b = a + 1 + more.len();
    let end = b + 1 + no.len();
    let to = e.len() as int;
    assert(e[0] == ElementView::Start(name));
    assert(e[a] == ElementView::Else);
    assert(e[b] == ElementView::Else);
    assert(e[end] == ElementView::End);
    assert forall|k: int| 0 <= k < yes.len() implies #[trigger] yes[k] == e[k + 1] by {}
    assert forall|k: int| 0 <= k < more.len() implies #[trigger] more[k] == e[k + (a + 1)] by {}
    assert forall|k: int| 0 <= k < no.len() implies #[trigger] no[k] == e[k + (b + 1)] by {}
    lemma_balanced_moves(yes, e, 1, 0, yes.len() as int, 0);
    lemma_balanced_moves(more, e, a + 1, 0, more.len() as int, 0);
    lemma_balanced_moves(no, e, b + 1, 0, no.len() as int, 0);
    lemma_marks_behind(e, to, 1, a, 0, 0, None);
    lemma_marks_behind(e, to, a + 1, b, 0, 0, Some(a));
    lemma_marks_behind(e, to, b + 1, end, 0, 0, Some(b));
    assert(block_marks(e, to, a, 0, None) == block_marks(e, to, a + 1, 0, Some(a)));
    assert(block_marks(e, to, b, 0, Some(a)) == block_marks(e, to, b + 1, 0, Some(b)));
    assert(block_marks(e, to, 1, 0, None) == (Some(b), Some(end)));
    lemma_rendered_in_two(e, 1, a, b, vars);
    assert(rendered(e, a, b, vars) == rendered(e, a + 1, b, vars));
    lemma_rendered_part(e, 1, a, vars);
    lemma_rendered_part(e, a + 1, b, vars);
    lemma_rendered_part(e, b + 1, end, vars);
    lemma_rendered_part(e, end + 1, to, vars);
    assert(e.subrange(1, a) =~= yes);
    assert(e.subrange(a + 1, b) =~= more);
    assert(e.subrange(b + 1, end) =~= no);
    assert(e.subrange(end + 1, to) =~= rest);
}

} // verus!
