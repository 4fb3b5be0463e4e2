//! Object paths, their textual form, and the registry that gives each path a
//! dense integer id.

use crate::error::{Result, TdmsReadError};
use crate::file::{Channel, Group};
use crate::text::{chars_of, push_char, str_eq};
use vstd::prelude::*;

verus! {

/// A name with each quote doubled.
pub open spec fn escape(name: Seq<char>) -> Seq<char>
    decreases name.len(),
{
    if name.len() == 0 {
        Seq::empty()
    } else if name[0] == '\'' {
        seq!['\'', '\''] + escape(name.drop_first())
    } else {
        seq![name[0]] + escape(name.drop_first())
    }
}

/// One component of a path: a slash, then the escaped name in quotes.
pub open spec fn quoted(name: Seq<char>) -> Seq<char> {
    seq!['/', '\''] + escape(name) + seq!['\'']
}

/// The textual form of a group's path.
pub open spec fn spec_path_from_group(group_name: Seq<char>) -> Seq<char> {
    quoted(group_name)
}

/// The textual form of a channel's path.
pub open spec fn spec_path_from_channel(group_name: Seq<char>, channel_name: Seq<char>) -> Seq<
    char,
> {
    quoted(group_name) + quoted(channel_name)
}

/// The mathematical value of an object path.
pub enum PathView {
    Root,
    Group(Seq<char>),
    Channel(Seq<char>, Seq<char>),
}

/// The canonical textual form of a path.
pub open spec fn canonical(path: PathView) -> Seq<char> {
    match path {
        PathView::Root => seq!['/'],
        PathView::Group(group) => spec_path_from_group(group),
        PathView::Channel(group, channel) => spec_path_from_channel(group, channel),
    }
}

/// Reads a component of `s` from index `i`, just behind its opening quote: a
/// doubled quote stands for a quote, a single quote ends the component. Gives
/// the name and the index behind the closing quote, or `None` if `s` ends
/// inside the component.
pub open spec fn parse_component(s: Seq<char>, i: int) -> Option<(Seq<char>, int)>
    decreases s.len() - i,
{
    if i < 0 || i >= s.len() {
        None
    } else if s[i] == '\'' {
        if i + 1 < s.len() && s[i + 1] == '\'' {
            match parse_component(s, i + 2) {
                Some((name, end)) => Some((seq!['\''] + name, end)),
                None => None,
            }
        } else {
            Some((Seq::empty(), i + 1))
        }
    } else {
        match parse_component(s, i + 1) {
            Some((name, end)) => Some((seq![s[i]] + name, end)),
            None => None,
        }
    }
}

/// Reads the components of `s` from index `i` on: each is a slash and a
/// quoted name. The text may end behind a component, or with one more slash.
/// Gives the names, or `None` if the text is not of this form.
pub open spec fn parse_components(s: Seq<char>, i: int) -> Option<Seq<Seq<char>>>
    decreases s.len() - i,
{
    if i < 0 {
        None
    } else if i >= s.len() {
        Some(Seq::empty())
    } else if s[i] != '/' {
        None
    } else if i + 1 == s.len() {
        Some(Seq::empty())
    } else if s[i + 1] != '\'' {
        None
    } else {
        match parse_component(s, i + 2) {
            Some((name, end)) => {
                if end <= i || end > s.len() {
                    None
                } else {
                    match parse_components(s, end) {
                        Some(rest) => Some(seq![name] + rest),
                        None => None,
                    }
                }
            },
            None => None,
        }
    }
}

/// The path that a text stands for: the root without a component, a group
/// with one, a channel with two. `None` for a text of another form, and for
/// one with more than two components.
pub open spec fn spec_parse(s: Seq<char>) -> Option<PathView> {
    match parse_components(s, 0) {
        Some(names) => {
            if names.len() == 0 {
                Some(PathView::Root)
            } else if names.len() == 1 {
                Some(PathView::Group(names[0]))
            } else if names.len() == 2 {
                Some(PathView::Channel(names[0], names[1]))
            } else {
                None
            }
        },
        None => None,
    }
}

/// The name of the component read from index `i`.
pub open spec fn component_name(s: Seq<char>, i: int) -> Seq<char> {
    match parse_component(s, i) {
        Some((name, _)) => name,
        None => Seq::empty(),
    }
}

/// The index behind the component read from index `i`.
pub open spec fn component_end(s: Seq<char>, i: int) -> int {
    match parse_component(s, i) {
        Some((_, end)) => end,
        None => i,
    }
}

/// A component ends behind where it starts.
pub proof fn lemma_component_end(s: Seq<char>, i: int)
    requires
        parse_component(s, i) is Some,
    ensures
        i < component_end(s, i) <= s.len(),
    decreases s.len() - i,
{
    if s[i] == '\'' {
        if i + 1 < s.len() && s[i + 1] == '\'' {
            lemma_component_end(s, i + 2);
        }
    } else {
        lemma_component_end(s, i + 1);
    }
}

/// The names of the components read from index `i` on; none where the text
/// is not of the form of a path.
pub open spec fn names_of(s: Seq<char>, i: int) -> Seq<Seq<char>> {
    match parse_components(s, i) {
        Some(names) => names,
        None => Seq::empty(),
    }
}

/// The components of a path one behind the other, each a slash and a quoted
/// name.
pub open spec fn join(names: Seq<Seq<char>>) -> Seq<char>
    decreases names.len(),
{
    if names.len() == 0 {
        Seq::empty()
    } else {
        quoted(names[0]) + join(names.drop_first())
    }
}

/// Whether `s` is a text that stands for `path`: its canonical form, for a
/// group or a channel also the canonical form with one more slash behind it,
/// and for the root also the empty text.
pub open spec fn is_text_of(s: Seq<char>, path: PathView) -> bool {
    ||| s == canonical(path)
    ||| !(path is Root) && s == canonical(path) + seq!['/']
    ||| path is Root && s.len() == 0
}

/// Where `s` holds an escaped name from index `i` on, then a quote that no
/// quote follows, reading a component from `i` gives that name and ends
/// behind the quote.
pub proof fn lemma_component_of_escaped(s: Seq<char>, i: int, name: Seq<char>)
    requires
        0 <= i,
        i + escape(name).len() < s.len(),
        s.subrange(i, i + escape(name).len()) == escape(name),
        s[i + escape(name).len()] == '\'',
        i + escape(name).len() + 1 == s.len() || s[i + escape(name).len() + 1] != '\'',
    ensures
        parse_component(s, i) == Some((name, i + escape(name).len() + 1)),
    decreases name.len(),
{
    let e = escape(name);
    let n = e.len() as int;
    if name.len() == 0 {
        assert(name =~= Seq::<char>::empty());
    } else {
        let rest = name.drop_first();
        let er = escape(rest);
        assert(s.subrange(i, i + n)[0] == s[i]);
        if name[0] == '\'' {
            assert(e =~= seq!['\'', '\''] + er);
            assert(s.subrange(i, i + n)[1] == s[i + 1]);
            assert(s.subrange(i + 2, i + 2 + er.len()) =~= er) by {
                assert forall|k: int| 0 <= k < er.len() implies s.subrange(
                    i + 2,
                    i + 2 + er.len(),
                )[k] == er[k] by {
                    assert(s.subrange(i, i + n)[k + 2] == s[i + 2 + k]);
                }
            }
            lemma_component_of_escaped(s, i + 2, rest);
            assert(seq!['\''] + rest =~= name);
        } else {
            assert(e =~= seq![name[0]] + er);
            assert(s.subrange(i + 1, i + 1 + er.len()) =~= er) by {
                assert forall|k: int| 0 <= k < er.len() implies s.subrange(
                    i + 1,
                    i + 1 + er.len(),
                )[k] == er[k] by {
                    assert(s.subrange(i, i + n)[k + 1] == s[i + 1 + k]);
                }
            }
            lemma_component_of_escaped(s, i + 1, rest);
            assert(seq![name[0]] + rest =~= name);
        }
    }
}

/// What a component was read from is its escaped name and a quote that no
/// quote follows.
pub proof fn lemma_component_text(s: Seq<char>, i: int)
    requires
        parse_component(s, i) is Some,
    ensures
        0 <= i < component_end(s, i) <= s.len(),
        s.subrange(i, component_end(s, i)) == escape(component_name(s, i)) + seq!['\''],
        component_end(s, i) == s.len() || s[component_end(s, i)] != '\'',
    decreases s.len() - i,
{
    let name = component_name(s, i);
    let end = component_end(s, i);
    if s[i] == '\'' {
        if i + 1 < s.len() && s[i + 1] == '\'' {
            lemma_component_text(s, i + 2);
            let rest = component_name(s, i + 2);
            assert(name =~= seq!['\''] + rest);
            assert(name.drop_first() =~= rest);
            assert(s.subrange(i, end) =~= seq!['\'', '\''] + s.subrange(i + 2, end));
            assert(s.subrange(i, end) =~= escape(name) + seq!['\'']);
        } else {
            assert(name =~= Seq::<char>::empty());
            assert(s.subrange(i, end) =~= escape(name) + seq!['\'']);
        }
    } else {
        lemma_component_text(s, i + 1);
        let rest = component_name(s, i + 1);
        assert(name =~= seq![s[i]] + rest);
        assert(name.drop_first() =~= rest);
        assert(s.subrange(i, end) =~= seq![s[i]] + s.subrange(i + 1, end));
        assert(s.subrange(i, end) =~= escape(name) + seq!['\'']);
    }
}

/// Where `s` holds a quoted component from index `i` on that no quote
/// follows, reading the components from `i` gives its name and then what
/// reading from behind it gives.
pub proof fn lemma_components_of_quoted(s: Seq<char>, i: int, name: Seq<char>)
    requires
        0 <= i,
        i + quoted(name).len() <= s.len(),
        s.subrange(i, i + quoted(name).len()) == quoted(name),
        i + quoted(name).len() == s.len() || s[i + quoted(name).len()] != '\'',
    ensures
        parse_components(s, i) == (match parse_components(s, i + quoted(name).len()) {
            Some(rest) => Some(seq![name] + rest),
            None => None,
        }),
{
    let q = quoted(name);
    let e = escape(name);
    assert(q.len() == e.len() + 3);
    assert(s.subrange(i, i + q.len())[0] == s[i]);
    assert(s.subrange(i, i + q.len())[1] == s[i + 1]);
    assert(s.subrange(i, i + q.len())[e.len() as int + 2] == s[i + 2 + e.len()]);
    assert(s.subrange(i + 2, i + 2 + e.len()) =~= e) by {
        assert forall|k: int| 0 <= k < e.len() implies s.subrange(i + 2, i + 2 + e.len())[k]
            == e[k] by {
            assert(s.subrange(i, i + q.len())[k + 2] == s[i + 2 + k]);
        }
    }
    lemma_component_of_escaped(s, i + 2, name);
}

/// What components were read from is those components one behind the other,
/// with or without one more slash behind them.
pub proof fn lemma_components_text(s: Seq<char>, i: int)
    requires
        0 <= i <= s.len(),
        parse_components(s, i) is Some,
    ensures
        s.skip(i) == join(parse_components(s, i)->0) || s.skip(i) == join(
            parse_components(s, i)->0,
        ) + seq!['/'],
    decreases s.len() - i,
{
    let names = parse_components(s, i)->0;
    if i >= s.len() {
        assert(s.skip(i) =~= join(names));
    } else if i + 1 == s.len() {
        assert(s.skip(i) =~= join(names) + seq!['/']);
    } else {
        lemma_component_text(s, i + 2);
        let name = component_name(s, i + 2);
        let end = component_end(s, i + 2);
        lemma_components_text(s, end);
        let rest = parse_components(s, end)->0;
        assert(names =~= seq![name] + rest);
        assert(names.drop_first() =~= rest);
        assert(names[0] == name);
        assert(s.skip(i) =~= seq!['/', '\''] + s.subrange(i + 2, end) + s.skip(end));
        assert(s.skip(i) =~= quoted(name) + s.skip(end));
        if s.skip(end) == join(rest) {
            assert(s.skip(i) =~= join(names));
        } else {
            assert(s.skip(i) =~= join(names) + seq!['/']);
        }
    }
}

/// A text stands for a path exactly if parsing it gives that path.
pub proof fn lemma_parse_characterised(s: Seq<char>, path: PathView)
    ensures
        spec_parse(s) == Some(path) <==> is_text_of(s, path),
{
    if spec_parse(s) == Some(path) {
        lemma_components_text(s, 0);
        let names = parse_components(s, 0)->0;
        assert(s.skip(0) =~= s);
        lemma_join_short(names);
    }
    if is_text_of(s, path) {
        lemma_parse_of_text(s, path);
    }
}

/// No, one and two components one behind the other.
proof fn lemma_join_short(names: Seq<Seq<char>>)
    ensures
        names.len() == 0 ==> join(names) == Seq::<char>::empty(),
        names.len() == 1 ==> join(names) == quoted(names[0]),
        names.len() == 2 ==> join(names) == quoted(names[0]) + quoted(names[1]),
        names.len() > 0 ==> join(names).len() >= 3 && join(names).last() == '\'',
    decreases names.len(),
{
    if names.len() > 0 {
        let rest = names.drop_first();
        lemma_join_short(rest);
        if rest.len() > 0 {
            lemma_join_short(rest.drop_first());
            assert(rest[0] == names[1]);
        }
        assert(quoted(names[0]) + Seq::<char>::empty() =~= quoted(names[0]));
    }
}

/// Parsing a text that stands for a path gives that path.
proof fn lemma_parse_of_text(s: Seq<char>, path: PathView)
    requires
        is_text_of(s, path),
    ensures
        spec_parse(s) == Some(path),
{
    match path {
        PathView::Root => {},
        PathView::Group(group) => {
            let q = quoted(group);
            assert(s.subrange(0, q.len() as int) =~= q);
            if s.len() > q.len() {
                assert(s[q.len() as int] == '/');
            }
            lemma_components_of_quoted(s, 0, group);
            assert(seq![group] + Seq::<Seq<char>>::empty() =~= seq![group]);
        },
        PathView::Channel(group, channel) => {
            let q = quoted(group);
            let c = quoted(channel);
            assert(s.subrange(0, q.len() as int) =~= q);
            assert(s[q.len() as int] == c[0]);
            lemma_components_of_quoted(s, 0, group);
            assert(s.subrange(q.len() as int, (q.len() + c.len()) as int) =~= c);
            if s.len() > q.len() + c.len() {
                assert(s[(q.len() + c.len()) as int] == '/');
            }
            lemma_components_of_quoted(s, q.len() as int, channel);
            assert(seq![channel] + Seq::<Seq<char>>::empty() =~= seq![channel]);
            assert(seq![group] + seq![channel] =~= seq![group, channel]);
        },
    }
}

/// Parsing the canonical form of a path gives the path back.
pub proof fn lemma_parse_canonical(path: PathView)
    ensures
        spec_parse(canonical(path)) == Some(path),
{
    lemma_parse_characterised(canonical(path), path);
}

/// The canonical form of what a text parses to is that text, for every text
/// that is neither empty nor ends with a slash behind a component.
pub proof fn lemma_canonical_of_parsed(s: Seq<char>)
    requires
        spec_parse(s) is Some,
        s.len() > 0,
        s.len() == 1 || s.last() != '/',
    ensures
        canonical(spec_parse(s)->0) == s,
{
    let path = spec_parse(s)->0;
    lemma_parse_characterised(s, path);
    if !(path is Root) && s == canonical(path) + seq!['/'] {
        assert(s.last() == '/');
        assert(canonical(path).len() >= 3);
    }
}

/// A text of more than two components stands for no path.
pub proof fn lemma_rejects_more_components(
    first: Seq<char>,
    second: Seq<char>,
    third: Seq<char>,
    rest: Seq<char>,
)
    ensures
        spec_parse(quoted(first) + quoted(second) + quoted(third) + rest) is None,
{
    let s = quoted(first) + quoted(second) + quoted(third) + rest;
    let a = quoted(first).len() as int;
    let b = quoted(second).len() as int;
    let c = quoted(third).len() as int;
    assert(s.subrange(0, a) =~= quoted(first));
    assert(s[a] == quoted(second)[0]);
    lemma_components_of_quoted(s, 0, first);
    assert(s.subrange(a, a + b) =~= quoted(second));
    assert(s[a + b] == quoted(third)[0]);
    lemma_components_of_quoted(s, a, second);
    assert(s.subrange(a + b, a + b + c) =~= quoted(third));
    if rest.len() > 0 && rest[0] == '\'' {
        assert(s[a + b + c] == rest[0]);
        lemma_three_components_or_none(s, a + b, third);
    } else {
        if rest.len() > 0 {
            assert(s[a + b + c] == rest[0]);
        }
        lemma_components_of_quoted(s, a + b, third);
    }
    if parse_components(s, 0) is Some {
        assert(names_of(s, 0).len() >= 3);
    }
}

/// Reading components from a quoted name on gives nothing or at least that
/// one component.
proof fn lemma_three_components_or_none(s: Seq<char>, i: int, name: Seq<char>)
    requires
        0 <= i,
        i + quoted(name).len() <= s.len(),
        s.subrange(i, i + quoted(name).len()) == quoted(name),
    ensures
        parse_components(s, i) is Some ==> names_of(s, i).len() >= 1,
{
    assert(s.subrange(i, i + quoted(name).len())[0] == s[i]);
    assert(s.subrange(i, i + quoted(name).len())[1] == s[i + 1]);
}

fn push_escaped(out: &mut String, name: &str)
    ensures
        final(out)@ == old(out)@ + escape(name@),
{
    let chars = chars_of(name);
    let mut i: usize = 0;
    assert(chars@.skip(0) =~= chars@);
    assert(out@ + Seq::<char>::empty() =~= out@);
    while i < chars.len()
        invariant
            i <= chars@.len(),
            chars@ == name@,
            old(out)@ + escape(name@) == out@ + escape(chars@.skip(i as int)),
        decreases chars@.len() - i,
    {
        let c = chars[i];
        let ghost before = out@;
        let ghost tail = chars@.skip(i as int);
        assert(tail.drop_first() =~= chars@.skip(i + 1));
        assert(tail[0] == c);
        if c == '\'' {
            push_char(out, '\'');
            push_char(out, '\'');
            assert(out@ + escape(tail.drop_first()) =~= before + (seq!['\'', '\''] + escape(
                tail.drop_first(),
            )));
        } else {
            push_char(out, c);
            assert(out@ + escape(tail.drop_first()) =~= before + (seq![c] + escape(
                tail.drop_first(),
            )));
        }
        i += 1;
    }
    assert(chars@.skip(i as int) =~= Seq::<char>::empty());
    assert(out@ + Seq::<char>::empty() =~= out@);
}

fn push_quoted(out: &mut String, name: &str)
    ensures
        final(out)@ == old(out)@ + quoted(name@),
{
    push_char(out, '/');
    push_char(out, '\'');
    push_escaped(out, name);
    push_char(out, '\'');
    assert(out@ =~= old(out)@ + quoted(name@));
}

/// The textual form of the path of the group `group_name`.
pub fn path_from_group(group_name: &str) -> (r: String)
    ensures
        r@ == spec_path_from_group(group_name@),
{
    let mut out = String::new();
    push_quoted(&mut out, group_name);
    assert(out@ =~= quoted(group_name@));
    out
}

/// The textual form of the path of the channel `channel_name` in the group
/// `group_name`.
pub fn path_from_channel(group_name: &str, channel_name: &str) -> (r: String)
    ensures
        r@ == spec_path_from_channel(group_name@, channel_name@),
{
    let mut out = String::new();
    push_quoted(&mut out, group_name);
    push_quoted(&mut out, channel_name);
    assert(out@ =~= quoted(group_name@) + quoted(channel_name@));
    out
}

#[derive(Debug, PartialEq, Eq)]
pub enum ObjectPath {
    Root,
    Group(String),
    Channel(String, String),
}

impl View for ObjectPath {
    type V = PathView;

    open spec fn view(&self) -> PathView {
        match self {
            ObjectPath::Root => PathView::Root,
            ObjectPath::Group(group) => PathView::Group(group@),
            ObjectPath::Channel(group, channel) => PathView::Channel(group@, channel@),
        }
    }
}

/// Reads a component from index `start`, just behind its opening quote.
fn read_component(chars: &Vec<char>, start: usize) -> (r: Option<(String, usize)>)
    requires
        start <= chars@.len(),
    ensures
        match parse_component(chars@, start as int) {
            Some((name, end)) => r matches Some((found, behind)) && found@ == name && behind
                == end && start < end <= chars@.len(),
            None => r is None,
        },
{
    let mut name = String::new();
    let mut i = start;
    let ghost s = chars@;
    loop
        invariant
            start <= i <= s.len(),
            s == chars@,
            parse_component(s, start as int) == (match parse_component(s, i as int) {
                Some((rest, end)) => Some((name@ + rest, end)),
                None => None,
            }),
        decreases s.len() - i,
    {
        if i >= chars.len() {
            return None;
        }
        let c = chars[i];
        let ghost before = name@;
        if c == '\'' {
            if i + 1 < chars.len() && chars[i + 1] == '\'' {
                push_char(&mut name, '\'');
                proof {
                    if parse_component(s, i + 2) is Some {
                        let rest = component_name(s, i + 2);
                        assert(before + (seq!['\''] + rest) =~= name@ + rest);
                    }
                }
                i += 2;
            } else {
                proof {
                    assert(name@ + Seq::<char>::empty() =~= name@);
                    lemma_component_end(s, start as int);
                }
                return Some((name, i + 1));
            }
        } else {
            push_char(&mut name, c);
            proof {
                if parse_component(s, i + 1) is Some {
                    let rest = component_name(s, i + 1);
                    assert(before + (seq![c] + rest) =~= name@ + rest);
                }
            }
            i += 1;
        }
    }
}

/// The views of a list of strings.
pub open spec fn views(names: Seq<String>) -> Seq<Seq<char>> {
    names.map_values(|name: String| name@)
}

/// Reads all components of a path.
fn read_components(chars: &Vec<char>) -> (r: Option<Vec<String>>)
    ensures
        match parse_components(chars@, 0) {
            Some(names) => r is Some && views(r->0@) == names,
            None => r is None,
        },
{
    let mut components: Vec<String> = Vec::new();
    let mut i: usize = 0;
    let ghost s = chars@;
    assert(views(components@) =~= Seq::<Seq<char>>::empty());
    loop
        invariant
            i <= s.len(),
            s == chars@,
            parse_components(s, 0) == (match parse_components(s, i as int) {
                Some(rest) => Some(views(components@) + rest),
                None => None,
            }),
        decreases s.len() - i,
    {
        if i >= chars.len() {
            assert(views(components@) + Seq::<Seq<char>>::empty() =~= views(components@));
            return Some(components);
        }
        if chars[i] != '/' {
            return None;
        }
        if i + 1 == chars.len() {
            assert(views(components@) + Seq::<Seq<char>>::empty() =~= views(components@));
            return Some(components);
        }
        if chars[i + 1] != '\'' {
            return None;
        }
        match read_component(chars, i + 2) {
            None => {
                return None;
            },
            Some((name, end)) => {
                let ghost before = views(components@);
                components.push(name);
                proof {
                    assert(views(components@) =~= before.push(name@));
                    if parse_components(s, end as int) is Some {
                        let rest = parse_components(s, end as int)->0;
                        assert(before + (seq![name@] + rest) =~= views(components@) + rest);
                    }
                }
                i = end;
            },
        }
    }
}

impl ObjectPath {
    /// Parse a TDMS object path
    pub fn parse(input_string: &str) -> (r: Result<ObjectPath>)
        ensures
            match spec_parse(input_string@) {
                Some(path) => r is Ok && r->Ok_0@ == path,
                None => r is Err && r->Err_0 is TdmsError,
            },
    {
        let chars = chars_of(input_string);
        match read_components(&chars) {
            None => Err(TdmsReadError::format_with_text("Invalid object path ", input_string)),
            Some(mut components) => {
                let ghost names = views(components@);
                if components.len() == 0 {
                    Ok(ObjectPath::Root)
                } else if components.len() == 1 {
                    let group = components.pop().unwrap();
                    assert(group@ == names[0]);
                    Ok(ObjectPath::Group(group))
                } else if components.len() == 2 {
                    let channel = components.pop().unwrap();
                    let group = components.pop().unwrap();
                    assert(group@ == names[0]);
                    assert(channel@ == names[1]);
                    Ok(ObjectPath::Channel(group, channel))
                } else {
                    Err(
                        TdmsReadError::format_with_text(
                            "Invalid object path with more than 2 components: ",
                            input_string,
                        ),
                    )
                }
            },
        }
    }
}

/// The dense id of an object path: its index in the registry.
#[derive(Copy, Clone, Debug, PartialEq, Eq, Hash, Structural)]
pub struct ObjectPathId(pub usize);

impl ObjectPathId {
    pub fn as_usize(&self) -> (r: usize)
        ensures
            r == self.0,
    {
        self.0
    }
}

/// The texts of a registry after the text `text` was interned: unchanged if
/// the text is known or stands for no path; else with the text added, and
/// behind it the text of its group if it stands for a channel and its group is
/// not known yet.
pub open spec fn spec_intern(texts: Seq<Seq<char>>, text: Seq<char>) -> Seq<Seq<char>> {
    if texts.contains(text) {
        texts
    } else {
        match spec_parse(text) {
            Some(PathView::Channel(group, _)) => {
                if texts.push(text).contains(quoted(group)) {
                    texts.push(text)
                } else {
                    texts.push(text).push(quoted(group))
                }
            },
            Some(_) => texts.push(text),
            None => texts,
        }
    }
}

/// The registry of object paths. Each distinct text of a path that was
/// interned has an id, the ids are given out in order from 0 on, and nothing
/// is ever removed.
#[derive(Debug)]
pub struct ObjectPathCache {
    path_texts: Vec<String>,
    id_to_path: Vec<ObjectPath>,
}

impl ObjectPathCache {
    /// The texts that were interned, by id.
    pub closed spec fn spec_texts(&self) -> Seq<Seq<char>> {
        views(self.path_texts@)
    }

    /// The paths that the texts stand for, by id.
    pub closed spec fn spec_paths(&self) -> Seq<PathView> {
        self.id_to_path@.map_values(|path: ObjectPath| path@)
    }

    /// Number of ids given out.
    pub open spec fn spec_len(&self) -> nat {
        self.spec_texts().len()
    }

    /// Every id has a text and the path that the text stands for; no text has
    /// two ids; the group of every channel has an id of its own, under its
    /// canonical text.
    pub open spec fn wf(&self) -> bool {
        &&& self.spec_texts().len() == self.spec_paths().len()
        &&& forall|i: int, j: int|
            0 <= i < j < self.spec_texts().len() ==> self.spec_texts()[i] != self.spec_texts()[j]
        &&& forall|i: int|
            0 <= i < self.spec_texts().len() ==> spec_parse(#[trigger] self.spec_texts()[i])
                == Some(self.spec_paths()[i])
        &&& forall|i: int|
            0 <= i < self.spec_paths().len() ==> (#[trigger] self.spec_paths()[i]
                matches PathView::Channel(group, _) ==> self.spec_texts().contains(
                quoted(group),
            ))
    }

    pub fn new() -> (r: ObjectPathCache)
        ensures
            r.wf(),
            r.spec_texts() == Seq::<Seq<char>>::empty(),
    {
        let r = ObjectPathCache { path_texts: Vec::new(), id_to_path: Vec::new() };
        assert(r.spec_texts() =~= Seq::<Seq<char>>::empty());
        assert(r.spec_paths() =~= Seq::<PathView>::empty());
        r
    }

    /// Number of ids given out.
    pub fn len(&self) -> (r: usize)
        requires
            self.wf(),
        ensures
            r == self.spec_len(),
    {
        self.path_texts.len()
    }

    fn find(&self, object_path: &str) -> (r: Option<usize>)
        ensures
            match r {
                Some(index) => index < self.spec_texts().len() && self.spec_texts()[index as int]
                    == object_path@,
                None => !self.spec_texts().contains(object_path@),
            },
    {
        let mut i: usize = 0;
        while i < self.path_texts.len()
            invariant
                i <= self.path_texts@.len(),
                forall|k: int| 0 <= k < i ==> self.spec_texts()[k] != object_path@,
            decreases self.path_texts@.len() - i,
        {
            if str_eq(self.path_texts[i].as_str(), object_path) {
                return Some(i);
            }
            i += 1;
        }
        None
    }

    /// The id of the text `object_path`, if it was interned.
    pub fn get_id(&self, object_path: &str) -> (r: Option<ObjectPathId>)
        ensures
            match r {
                Some(id) => id.0 < self.spec_len() && self.spec_texts()[id.0 as int]
                    == object_path@,
                None => !self.spec_texts().contains(object_path@),
            },
    {
        match self.find(object_path) {
            Some(index) => Some(ObjectPathId(index)),
            None => None,
        }
    }

    /// The path with the id `object_path_id`, if the id was given out.
    pub fn get_path(&self, object_path_id: ObjectPathId) -> (r: Option<&ObjectPath>)
        requires
            self.wf(),
        ensures
            match r {
                Some(path) => object_path_id.0 < self.spec_len() && path@
                    == self.spec_paths()[object_path_id.0 as int],
                None => object_path_id.0 >= self.spec_len(),
            },
    {
        let index = object_path_id.as_usize();
        if index < self.id_to_path.len() {
            Some(&self.id_to_path[index])
        } else {
            None
        }
    }

    /// The id of the text `path`, which is interned if it is new. With a new
    /// channel its group is interned too, under the group's canonical text.
    /// Fails with a format error, and changes nothing, exactly when the text
    /// is new and stands for no path.
    pub fn get_or_create_id(&mut self, path: String) -> (r: Result<ObjectPathId>)
        requires
            old(self).wf(),
        ensures
            final(self).wf(),
            final(self).spec_texts() == spec_intern(old(self).spec_texts(), path@),
            old(self).spec_paths() == final(self).spec_paths().take(old(self).spec_len() as int),
            match r {
                Ok(id) => {
                    &&& id.0 < final(self).spec_len()
                    &&& final(self).spec_texts()[id.0 as int] == path@
                    &&& !old(self).spec_texts().contains(path@) ==> id.0 == old(self).spec_len()
                },
                Err(e) => {
                    &&& !old(self).spec_texts().contains(path@)
                    &&& spec_parse(path@) is None
                    &&& e is TdmsError
                },
            },
    {
        let ghost text = path@;
        let ghost old_texts = self.spec_texts();
        let ghost old_paths = self.spec_paths();
        let (path_id, created) = match self.get_or_create_id_internal(path) {
            Ok(found) => found,
            Err(e) => {
                assert(self.spec_paths().take(self.spec_len() as int) =~= self.spec_paths());
                return Err(e);
            },
        };
        let ghost mid_texts = self.spec_texts();
        let ghost mid_paths = self.spec_paths();
        if created {
            let index = self.id_to_path.len() - 1;
            let group_path = match &self.id_to_path[index] {
                // If we've created a new channel object, make sure the group object also exists
                ObjectPath::Channel(group_name, _) => Some(path_from_group(group_name.as_str())),
                _ => None,
            };
            if let Some(group_path) = group_path {
                let ghost group = mid_paths[index as int]->Channel_0;
                proof {
                    lemma_parse_canonical(PathView::Group(group));
                }
                match self.get_or_create_id_internal(group_path) {
                    Ok(_) => {},
                    Err(e) => {
                        return Err(e);
                    },
                }
                proof {
                    assert(mid_paths =~= self.spec_paths().take(mid_paths.len() as int));
                    assert(mid_texts =~= self.spec_texts().take(mid_texts.len() as int));
                    if mid_texts.contains(quoted(group)) {
                        let k = choose|k: int| 0 <= k < mid_texts.len() && mid_texts[k] == quoted(group);
                        assert(self.spec_texts()[k] == quoted(group));
                    } else {
                        assert(self.spec_texts()[mid_texts.len() as int] == quoted(group));
                    }
                    assert(self.spec_texts().contains(quoted(group)));
                }
            }
            proof {
                assert(old_paths =~= mid_paths.take(old_paths.len() as int));
                assert(old_paths =~= self.spec_paths().take(old_paths.len() as int));
                let texts = self.spec_texts();
                let paths = self.spec_paths();
                assert forall|i: int| 0 <= i < paths.len() && (#[trigger] paths[i]) is Channel implies texts.contains(
                    quoted(paths[i]->Channel_0),
                ) by {
                    let g = paths[i]->Channel_0;
                    if i < old_paths.len() {
                        assert(old_paths[i] == paths[i]);
                        let k = choose|k: int| 0 <= k < old_texts.len() && old_texts[k] == quoted(g);
                        assert(mid_texts[k] == quoted(g));
                        assert(texts[k] == quoted(g));
                    } else if i == old_paths.len() {
                        assert(mid_paths[i] == paths[i]);
                    } else {
                    }
                }
            }
        } else {
            assert(self.spec_paths().take(self.spec_len() as int) =~= self.spec_paths());
        }
        Ok(path_id)
    }

    /// All ids that were given out, in order, each with its path.
    pub fn objects(&self) -> (r: Vec<(ObjectPathId, &ObjectPath)>)
        requires
            self.wf(),
        ensures
            r@.len() == self.spec_len(),
            forall|i: int|
                0 <= i < r@.len() ==> (#[trigger] r@[i]).0 == ObjectPathId(i as usize) && r@[i].1@
                    == self.spec_paths()[i],
    {
        let mut out: Vec<(ObjectPathId, &ObjectPath)> = Vec::new();
        let mut i: usize = 0;
        while i < self.id_to_path.len()
            invariant
                self.wf(),
                i <= self.id_to_path@.len(),
                out@.len() == i,
                forall|k: int|
                    0 <= k < i ==> (#[trigger] out@[k]).0 == ObjectPathId(k as usize) && out@[k].1@
                        == self.spec_paths()[k],
            decreases self.id_to_path@.len() - i,
        {
            out.push((ObjectPathId(i), &self.id_to_path[i]));
            i += 1;
        }
        out
    }

    /// Interns one text, without its group: the id, and whether it is new.
    fn get_or_create_id_internal(&mut self, path: String) -> (r: Result<(ObjectPathId, bool)>)
        requires
            old(self).spec_texts().len() == old(self).spec_paths().len(),
            forall|i: int, j: int|
                0 <= i < j < old(self).spec_texts().len() ==> old(self).spec_texts()[i] != old(self).spec_texts()[j],
            forall|i: int|
                0 <= i < old(self).spec_texts().len() ==> spec_parse(
                    #[trigger] old(self).spec_texts()[i],
                ) == Some(old(self).spec_paths()[i]),
        ensures
            final(self).spec_texts().len() == final(self).spec_paths().len(),
            forall|i: int, j: int|
                0 <= i < j < final(self).spec_texts().len() ==> final(self).spec_texts()[i]
                    != final(self).spec_texts()[j],
            forall|i: int|
                0 <= i < final(self).spec_texts().len() ==> spec_parse(
                    #[trigger] final(self).spec_texts()[i],
                ) == Some(final(self).spec_paths()[i]),
            match r {
                Ok((id, created)) => {
                    &&& created == !old(self).spec_texts().contains(path@)
                    &&& id.0 < final(self).spec_texts().len()
                    &&& final(self).spec_texts()[id.0 as int] == path@
                    &&& created ==> {
                        &&& spec_parse(path@) is Some
                        &&& id.0 == old(self).spec_texts().len()
                        &&& final(self).spec_texts() == old(self).spec_texts().push(path@)
                        &&& final(self).spec_paths() == old(self).spec_paths().push(
                            spec_parse(path@)->0,
                        )
                    }
                    &&& !created ==> {
                        &&& final(self).spec_texts() == old(self).spec_texts()
                        &&& final(self).spec_paths() == old(self).spec_paths()
                    }
                },
                Err(e) => {
                    &&& !old(self).spec_texts().contains(path@)
                    &&& spec_parse(path@) is None
                    &&& e is TdmsError
                    &&& final(self).spec_texts() == old(self).spec_texts()
                    &&& final(self).spec_paths() == old(self).spec_paths()
                },
            },
    {
        match self.find(path.as_str()) {
            Some(index) => Ok((ObjectPathId(index), false)),
            None => {
                let object_path = match ObjectPath::parse(path.as_str()) {
                    Ok(object_path) => object_path,
                    Err(e) => {
                        return Err(e);
                    },
                };
                let next_id = self.id_to_path.len();
                let new_id = ObjectPathId(next_id);
                let ghost parsed_path = object_path@;
                self.id_to_path.push(object_path);
                self.path_texts.push(path);
                proof {
                    assert(self.spec_texts() =~= old(self).spec_texts().push(path@));
                    assert(self.spec_paths() =~= old(self).spec_paths().push(parsed_path));
                }
                Ok((new_id, true))
            },
        }
    }
}

} // verus!
