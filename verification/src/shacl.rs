//! SHACL shapes: constraint components and property shapes, and their text.
//!
//! Nodes, IRIs, literals, node kinds, values, paths and targets are held in
//! their written form.
use vstd::prelude::*;

use crate::text::{bool_text, int_text, joined, write_bool, write_isize, write_joined};

verus! {

/// A constraint component of a SHACL shape.
#[derive(Debug, Clone)]
pub enum Component {
    Class(String),
    Datatype(String),
    NodeKind(String),
    MinCount(isize),
    MaxCount(isize),
    MinExclusive(String),
    MaxExclusive(String),
    MinInclusive(String),
    MaxInclusive(String),
    MinLength(isize),
    MaxLength(isize),
    Pattern { pattern: String, flags: Option<String> },
    UniqueLang(bool),
    LanguageIn { langs: Vec<String> },
    Equals(String),
    Disjoint(String),
    LessThan(String),
    LessThanOrEquals(String),
    Or { shapes: Vec<String> },
    And { shapes: Vec<String> },
    Not { shape: String },
    Xone { shapes: Vec<String> },
    Closed { is_closed: bool, ignored_properties: Vec<String> },
    Node { shape: String },
    HasValue { value: String },
    In { values: Vec<String> },
    QualifiedValueShape {
        shape: String,
        qualified_min_count: Option<isize>,
        qualified_max_count: Option<isize>,
        qualified_value_shapes_disjoint: Option<bool>,
    },
}

/// The texts of a list of strings.
pub open spec fn texts(v: Vec<String>) -> Seq<Seq<char>> {
    v@.map_values(|s: String| s@)
}

/// `name(arg)`.
pub open spec fn call_text(name: Seq<char>, arg: Seq<char>) -> Seq<char> {
    name + "("@ + arg + ")"@
}

/// `name [items]`, the items separated by spaces.
pub open spec fn list_text(name: Seq<char>, items: Seq<Seq<char>>) -> Seq<char> {
    name + " ["@ + joined(items, " "@) + "]"@
}

impl Component {
    /// Whether the component has a text: language lists, closedness and
    /// qualified value shapes have none.
    pub open spec fn has_text(&self) -> bool {
        !(self is LanguageIn || self is Closed || self is QualifiedValueShape)
    }

    /// The text of the component.
    pub open spec fn text(&self) -> Seq<char> {
        match self {
            Component::Class(cls) => call_text("class"@, cls@),
            Component::Datatype(dt) => call_text("datatype"@, dt@),
            Component::NodeKind(nk) => call_text("nodeKind"@, nk@),
            Component::MinCount(mc) => call_text("minCount"@, int_text(*mc as int)),
            Component::MaxCount(mc) => call_text("maxCount"@, int_text(*mc as int)),
            Component::MinExclusive(me) => call_text("minExclusive"@, me@),
            Component::MaxExclusive(me) => call_text("maxExclusive"@, me@),
            Component::MinInclusive(mi) => call_text("minInclusive"@, mi@),
            Component::MaxInclusive(mi) => call_text("maxInclusive"@, mi@),
            Component::MinLength(ml) => call_text("minLength"@, int_text(*ml as int)),
            Component::MaxLength(ml) => call_text("maxLength"@, int_text(*ml as int)),
            Component::Pattern { pattern, flags } => match flags {
                Some(flags) => call_text("pattern"@, pattern@ + ", "@ + flags@),
                None => call_text("pattern"@, pattern@),
            },
            Component::UniqueLang(ul) => call_text("uniqueLang"@, bool_text(*ul)),
            Component::Equals(e) => call_text("equals"@, e@),
            Component::Disjoint(d) => call_text("disjoint"@, d@),
            Component::LessThan(lt) => call_text("uniqueLang"@, lt@),
            Component::LessThanOrEquals(lte) => call_text("uniqueLang"@, lte@),
            Component::Or { shapes } => list_text("or"@, texts(*shapes)),
            Component::And { shapes } => list_text("and"@, texts(*shapes)),
            Component::Not { shape } => "not ["@ + shape@ + "]"@,
            Component::Xone { shapes } => list_text("xone"@, texts(*shapes)),
            Component::Node { shape } => call_text("node"@, shape@),
            Component::HasValue { value } => call_text("hasValue"@, value@),
            Component::In { values } => list_text("In"@, texts(*values)),
            _ => Seq::empty(),
        }
    }

    /// Writes the text of the component.
    pub fn write_text(&self, out: &mut String)
        requires
            self.has_text(),
        ensures
            final(out)@ == old(out)@ + self.text(),
    {
        match self {
            Component::Class(cls) => write_call("class", cls.as_str(), out),
            Component::Datatype(dt) => write_call("datatype", dt.as_str(), out),
            Component::NodeKind(nk) => write_call("nodeKind", nk.as_str(), out),
            Component::MinCount(mc) => write_call_int("minCount", *mc, out),
            Component::MaxCount(mc) => write_call_int("maxCount", *mc, out),
            Component::MinExclusive(me) => write_call("minExclusive", me.as_str(), out),
            Component::MaxExclusive(me) => write_call("maxExclusive", me.as_str(), out),
            Component::MinInclusive(mi) => write_call("minInclusive", mi.as_str(), out),
            Component::MaxInclusive(mi) => write_call("maxInclusive", mi.as_str(), out),
            Component::MinLength(ml) => write_call_int("minLength", *ml, out),
            Component::MaxLength(ml) => write_call_int("maxLength", *ml, out),
            Component::Pattern { pattern, flags } => match flags {
                Some(flags) => {
                    out.append("pattern");
                    out.append("(");
                    out.append(pattern.as_str());
                    out.append(", ");
                    out.append(flags.as_str());
                    out.append(")");
                    assert(out@ =~= old(out)@ + self.text());
                },
                None => write_call("pattern", pattern.as_str(), out),
            },
            Component::UniqueLang(ul) => {
                out.append("uniqueLang");
                out.append("(");
                write_bool(*ul, out);
                out.append(")");
                assert(out@ =~= old(out)@ + self.text());
            },
            Component::Equals(e) => write_call("equals", e.as_str(), out),
            Component::Disjoint(d) => write_call("disjoint", d.as_str(), out),
            Component::LessThan(lt) => write_call("uniqueLang", lt.as_str(), out),
            Component::LessThanOrEquals(lte) => write_call("uniqueLang", lte.as_str(), out),
            Component::Or { shapes } => write_list("or", shapes, out),
            Component::And { shapes } => write_list("and", shapes, out),
            Component::Not { shape } => {
                out.append("not [");
                out.append(shape.as_str());
                out.append("]");
                assert(out@ =~= old(out)@ + self.text());
            },
            Component::Xone { shapes } => write_list("xone", shapes, out),
            Component::Node { shape } => write_call("node", shape.as_str(), out),
            Component::HasValue { value } => write_call("hasValue", value.as_str(), out),
            Component::In { values } => write_list("In", values, out),
            _ => unreached(),
        }
    }

    /// The text of the component.
    pub fn to_string(&self) -> (res: String)
        requires
            self.has_text(),
        ensures
            res@ == self.text(),
    {
        let mut res = String::new();
        self.write_text(&mut res);
        assert(res@ =~= self.text());
        res
    }
}

/// Writes `name(arg)`.
fn write_call(name: &str, arg: &str, out: &mut String)
    ensures
        final(out)@ == old(out)@ + call_text(name@, arg@),
{
    out.append(name);
    out.append("(");
    out.append(arg);
    out.append(")");
    assert(out@ =~= old(out)@ + call_text(name@, arg@));
}

/// Writes `name(n)`.
fn write_call_int(name: &str, n: isize, out: &mut String)
    ensures
        final(out)@ == old(out)@ + call_text(name@, int_text(n as int)),
{
    out.append(name);
    out.append("(");
    write_isize(n, out);
    out.append(")");
    assert(out@ =~= old(out)@ + call_text(name@, int_text(n as int)));
}

/// Writes `name [items]`.
fn write_list(name: &str, items: &Vec<String>, out: &mut String)
    ensures
        final(out)@ == old(out)@ + list_text(name@, texts(*items)),
{
    out.append(name);
    out.append(" [");
    write_joined(items, " ", out);
    out.append("]");
    assert(out@ =~= old(out)@ + list_text(name@, texts(*items)));
}


/// Each item on a line of its own, after `indent`.
pub open spec fn lines_text(indent: Seq<char>, items: Seq<Seq<char>>) -> Seq<char>
    decreases items.len(),
{
    if items.len() == 0 {
        Seq::empty()
    } else {
        lines_text(indent, items.drop_last()) + indent + items.last() + "\n"@
    }
}

/// Writes each item on a line of its own, after `indent`.
fn write_lines(indent: &str, items: &Vec<String>, out: &mut String)
    ensures
        final(out)@ == old(out)@ + lines_text(indent@, texts(*items)),
{
    let ghost views = texts(*items);
    let n = items.len();
    let mut i: usize = 0;
    assert(views.take(0) =~= Seq::<Seq<char>>::empty());
    assert(out@ =~= old(out)@ + lines_text(indent@, views.take(0)));
    while i < n
        invariant
            n == items@.len(),
            views == texts(*items),
            i <= n,
            out@ == old(out)@ + lines_text(indent@, views.take(i as int)),
        decreases n - i,
    {
        out.append(indent);
        out.append(items[i].as_str());
        out.append("\n");
        assert(views.take(i + 1).drop_last() =~= views.take(i as int));
        assert(views.take(i + 1).last() == items@[i as int]@);
        i = i + 1;
        assert(out@ =~= old(out)@ + lines_text(indent@, views.take(i as int)));
    }
    assert(views.take(n as int) =~= views);
}

/// A property shape: a path, the constraint components on its values, its
/// targets, the property shapes nested in it, and whether it is closed.
#[derive(Debug, Clone)]
pub struct PropertyShape {
    path: String,
    components: Vec<Component>,
    targets: Vec<String>,
    property_shapes: Vec<String>,
    closed: bool,
}

/// The texts of the components of a list.
pub open spec fn component_texts(cs: Seq<Component>) -> Seq<Seq<char>> {
    cs.map_values(|c: Component| c.text())
}

impl PropertyShape {
    pub closed spec fn path(&self) -> Seq<char> {
        self.path@
    }

    pub closed spec fn components(&self) -> Seq<Component> {
        self.components@
    }

    pub closed spec fn targets(&self) -> Seq<Seq<char>> {
        texts(self.targets)
    }

    pub closed spec fn property_shapes(&self) -> Seq<Seq<char>> {
        texts(self.property_shapes)
    }

    pub closed spec fn closed(&self) -> bool {
        self.closed
    }

    /// A property shape for a path, with no components, targets or nested
    /// property shapes, and not closed.
    pub fn new(_id: String, path: String) -> (res: PropertyShape)
        ensures
            res.path() == path@,
            res.components() == Seq::<Component>::empty(),
            res.targets() == Seq::<Seq<char>>::empty(),
            res.property_shapes() == Seq::<Seq<char>>::empty(),
            !res.closed(),
    {
        let res = PropertyShape {
            path,
            components: Vec::new(),
            targets: Vec::new(),
            property_shapes: Vec::new(),
            closed: false,
        };
        assert(res.targets() =~= Seq::<Seq<char>>::empty());
        assert(res.property_shapes() =~= Seq::<Seq<char>>::empty());
        res
    }

    pub fn with_targets(self, targets: Vec<String>) -> (res: PropertyShape)
        ensures
            res.targets() == texts(targets),
            res.path() == self.path(),
            res.components() == self.components(),
            res.property_shapes() == self.property_shapes(),
            res.closed() == self.closed(),
    {
        let mut s = self;
        s.targets = targets;
        s
    }

    pub fn with_property_shapes(self, property_shapes: Vec<String>) -> (res: PropertyShape)
        ensures
            res.property_shapes() == texts(property_shapes),
            res.path() == self.path(),
            res.components() == self.components(),
            res.targets() == self.targets(),
            res.closed() == self.closed(),
    {
        let mut s = self;
        s.property_shapes = property_shapes;
        s
    }

    pub fn with_components(self, components: Vec<Component>) -> (res: PropertyShape)
        ensures
            res.components() == components@,
            res.path() == self.path(),
            res.targets() == self.targets(),
            res.property_shapes() == self.property_shapes(),
            res.closed() == self.closed(),
    {
        let mut s = self;
        s.components = components;
        s
    }

    pub fn with_closed(self, closed: bool) -> (res: PropertyShape)
        ensures
            res.closed() == closed,
            res.path() == self.path(),
            res.components() == self.components(),
            res.targets() == self.targets(),
            res.property_shapes() == self.property_shapes(),
    {
        let mut s = self;
        s.closed = closed;
        s
    }

    /// The text of the property shape: its path, targets, closedness, nested
    /// property shapes and components, one per line, between braces.
    pub open spec fn text(&self) -> Seq<char> {
        "{"@ + "\n"@ + "       PropertyShape"@ + "\n"@ + "       path: "@ + self.path() + "\n"@
            + lines_text("       "@, self.targets()) + (if self.closed() {
            "       closed: "@ + bool_text(true) + "\n"@
        } else {
            Seq::empty()
        }) + lines_text("       Property "@, self.property_shapes()) + lines_text(
            "       "@,
            component_texts(self.components()),
        ) + "}"@
    }

    /// The text of the property shape.
    pub fn to_string(&self) -> (res: String)
        requires
            forall|i: int| 0 <= i < self.components().len() ==> (#[trigger] self.components()[i]).has_text(),
        ensures
            res@ == self.text(),
    {
        let mut out = String::new();
        out.append("{");
        out.append("\n");
        out.append("       PropertyShape");
        out.append("\n");
        out.append("       path: ");
        out.append(self.path.as_str());
        out.append("\n");
        write_lines("       ", &self.targets, &mut out);
        let ghost before_closed = out@;
        if self.closed {
            out.append("       closed: ");
            write_bool(self.closed, &mut out);
            out.append("\n");
        }
        assert(out@ =~= before_closed + (if self.closed() {
            "       closed: "@ + bool_text(true) + "\n"@
        } else {
            Seq::<char>::empty()
        }));
        write_lines("       Property ", &self.property_shapes, &mut out);
        let ghost before_components = out@;
        let ghost cts = component_texts(self.components());
        let n = self.components.len();
        let mut i: usize = 0;
        assert(cts.take(0) =~= Seq::<Seq<char>>::empty());
        assert(out@ =~= before_components + lines_text("       "@, cts.take(0)));
        while i < n
            invariant
                n == self.components@.len(),
                cts == component_texts(self.components()),
                forall|j: int| 0 <= j < self.components().len() ==> (#[trigger] self.components()[j]).has_text(),
                i <= n,
                out@ == before_components + lines_text("       "@, cts.take(i as int)),
            decreases n - i,
        {
            out.append("       ");
            assert(self.components()[i as int].has_text());
            self.components[i].write_text(&mut out);
            out.append("\n");
            assert(cts.take(i + 1).drop_last() =~= cts.take(i as int));
            assert(cts.take(i + 1).last() == self.components@[i as int].text());
            i = i + 1;
            assert(out@ =~= before_components + lines_text("       "@, cts.take(i as int)));
        }
        assert(cts.take(n as int) =~= cts);
        out.append("}");
        assert(out@ =~= self.text());
        out
    }
}

/// Adding a component to a property shape adds its line to the text, just
/// before the closing brace: every component has its line, in order.
pub proof fn law_property_shape_component_line(p: PropertyShape, q: PropertyShape, c: Component)
    requires
        q.path() == p.path(),
        q.targets() == p.targets(),
        q.property_shapes() == p.property_shapes(),
        q.closed() == p.closed(),
        q.components() == p.components().push(c),
    ensures
        q.text() == p.text().drop_last() + "       "@ + c.text() + "\n"@ + "}"@,
{
    let indent = "       "@;
    let cts = component_texts(p.components());
    assert(component_texts(q.components()) =~= cts.push(c.text()));
    assert(cts.push(c.text()).drop_last() =~= cts);
    assert(lines_text(indent, cts.push(c.text())) == lines_text(indent, cts) + indent + c.text() + "\n"@);
    reveal_strlit("}");
    assert(p.text().drop_last() =~= p.text().subrange(0, p.text().len() - 1));
    assert(q.text() =~= p.text().drop_last() + indent + c.text() + "\n"@ + "}"@);
}

/// The SHACL name under which a component is written: the name of its own
/// kind, except that `sh:lessThan` and `sh:lessThanOrEquals` are written
/// under `uniqueLang`.
pub open spec fn component_name(c: Component) -> Seq<char> {
    match c {
        Component::Class(_) => "class"@,
        Component::Datatype(_) => "datatype"@,
        Component::NodeKind(_) => "nodeKind"@,
        Component::MinCount(_) => "minCount"@,
        Component::MaxCount(_) => "maxCount"@,
        Component::MinExclusive(_) => "minExclusive"@,
        Component::MaxExclusive(_) => "maxExclusive"@,
        Component::MinInclusive(_) => "minInclusive"@,
        Component::MaxInclusive(_) => "maxInclusive"@,
        Component::MinLength(_) => "minLength"@,
        Component::MaxLength(_) => "maxLength"@,
        Component::Pattern { .. } => "pattern"@,
        Component::UniqueLang(_) => "uniqueLang"@,
        Component::Equals(_) => "equals"@,
        Component::Disjoint(_) => "disjoint"@,
        Component::LessThan(_) => "uniqueLang"@,
        Component::LessThanOrEquals(_) => "uniqueLang"@,
        Component::Or { .. } => "or"@,
        Component::And { .. } => "and"@,
        Component::Not { .. } => "not"@,
        Component::Xone { .. } => "xone"@,
        Component::Node { .. } => "node"@,
        Component::HasValue { .. } => "hasValue"@,
        Component::In { .. } => "In"@,
        _ => Seq::empty(),
    }
}

/// The text of a component starts with the name of its kind, followed by
/// `(` for a component with an argument, or by ` [` for a list of shapes or
/// values.
pub proof fn law_component_text_names_its_kind(c: Component)
    requires
        c.has_text(),
    ensures
        ({
            let name = component_name(c);
            let t = c.text();
            &&& name.len() < t.len()
            &&& t.subrange(0, name.len() as int) == name
            &&& (t[name.len() as int] == '(' || t[name.len() as int] == ' ')
        }),
{
    reveal_strlit("(");
    reveal_strlit(")");
    reveal_strlit(" [");
    reveal_strlit("]");
    reveal_strlit("not [");
    reveal_strlit("not");
    let name = component_name(c);
    let t = c.text();
    let rest = t.subrange(name.len() as int, t.len() as int);
    assert(t =~= name + rest);
    assert(t.subrange(0, name.len() as int) =~= name);
    assert(t[name.len() as int] == rest[0]);
}

/// The texts of a minimum and of a maximum count never coincide.
pub proof fn law_min_and_max_count_differ(a: isize, b: isize)
    ensures
        Component::MinCount(a).text() != Component::MaxCount(b).text(),
{
    reveal_strlit("minCount");
    reveal_strlit("maxCount");
    law_component_text_names_its_kind(Component::MinCount(a));
    law_component_text_names_its_kind(Component::MaxCount(b));
    let t1 = Component::MinCount(a).text();
    let t2 = Component::MaxCount(b).text();
    assert(t1[1] == "minCount"@[1]);
    assert(t2[1] == "maxCount"@[1]);
}

} // verus!


