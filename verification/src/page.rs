//! Flattening of a plugin's component tree into the rows that the terminal
//! front end lists on a page.

use vstd::prelude::*;

verus! {

/// A plugin's interface description, as the host hands it to the front end.
///
/// Identifiers and amounts that the front end only shows are carried here in
/// the text form in which they are shown.
#[derive(Debug)]
pub enum Component {
    Container { children: Vec<Component> },
    Heading { text: String },
    Heading2 { text: String },
    Text { text: String },
    UnorderedList { items: Vec<(String, Component)> },
    Form { id: String, fields: Vec<Component> },
    ButtonInput { text: String, id: String },
    TextInput { label: String, id: String },
    DropdownInput { label: String, options: Vec<String>, id: String },
    SubmitInput { text: String },
    Chain { id: String },
    Account { id: String },
    Asset { id: String, balance: Option<String> },
    EntityId { id: String },
    Hex { data: Vec<u8> },
}

/// One row of a flattened page.
#[derive(Debug, Clone)]
pub enum PageItem {
    Label(String),
    Button { text: String, id: String },
    Input { label: String, id: String, form_id: String },
    Dropdown { label: String, options: Vec<String>, id: String, form_id: String },
    Submit { text: String, form_id: String },
}

/// A page row with its strings taken as character sequences.
pub enum PageRow {
    Label(Seq<char>),
    Button { text: Seq<char>, id: Seq<char> },
    Input { label: Seq<char>, id: Seq<char>, form_id: Seq<char> },
    Dropdown { label: Seq<char>, options: Seq<Seq<char>>, id: Seq<char>, form_id: Seq<char> },
    Submit { text: Seq<char>, form_id: Seq<char> },
}

/// The character sequences of a list of strings.
pub open spec fn strings_view(v: Seq<String>) -> Seq<Seq<char>> {
    v.map_values(|s: String| s@)
}

impl View for PageItem {
    type V = PageRow;

    open spec fn view(&self) -> PageRow {
        match self {
            PageItem::Label(t) => PageRow::Label(t@),
            PageItem::Button { text, id } => PageRow::Button { text: text@, id: id@ },
            PageItem::Input { label, id, form_id } => PageRow::Input {
                label: label@,
                id: id@,
                form_id: form_id@,
            },
            PageItem::Dropdown { label, options, id, form_id } => PageRow::Dropdown {
                label: label@,
                options: strings_view(options@),
                id: id@,
                form_id: form_id@,
            },
            PageItem::Submit { text, form_id } => PageRow::Submit { text: text@, form_id: form_id@ },
        }
    }
}

/// The rows of a list of page items.
pub open spec fn rows(v: Seq<PageItem>) -> Seq<PageRow> {
    v.map_values(|p: PageItem| p@)
}

impl PageRow {
    /// Every row but a label can take the cursor.
    pub open spec fn interactive(self) -> bool {
        !(self is Label)
    }
}

/// Lower-case hexadecimal digit of a nibble.
pub open spec fn hex_digit(n: int) -> char {
    if n < 10 {
        ('0' as int + n) as char
    } else {
        ('a' as int + n - 10) as char
    }
}

/// Two lower-case hexadecimal digits per byte, most significant first.
pub open spec fn hex_lower(bytes: Seq<u8>) -> Seq<char>
    decreases bytes.len(),
{
    if bytes.len() == 0 {
        Seq::empty()
    } else {
        hex_lower(bytes.drop_last()) + seq![
            hex_digit(bytes.last() as int / 16),
            hex_digit(bytes.last() as int % 16),
        ]
    }
}

/// `hex::encode`: the bytes as lower-case hexadecimal text, two digits per
/// byte, high nibble first. The claim is that of the crate's documentation
/// and of its table `0123456789abcdef`.
#[verifier::external_body]
pub(crate) fn hex_encode(data: &[u8]) -> (s: String)
    ensures
        s@ == hex_lower(data@),
{
    hex::encode(data)
}

/// The text shown for an asset's balance.
pub open spec fn balance_text(balance: Option<String>) -> Seq<char> {
    match balance {
        Some(b) => b@,
        None => "\u{2014}"@,
    }
}

/// The rows that one component contributes, where `form` is the id of the
/// form that encloses it, if any.
pub open spec fn flat(c: Component, form: Option<Seq<char>>) -> Seq<PageRow>
    decreases c,
{
    match c {
        Component::Container { children } => flat_all(children@, form),
        Component::Heading { text } => seq![PageRow::Label("## "@ + text@)],
        Component::Heading2 { text } => seq![PageRow::Label("# "@ + text@)],
        Component::Text { text } => seq![PageRow::Label(text@)],
        Component::UnorderedList { items } => flat_list(items@, form),
        Component::Form { id, fields } => flat_all(fields@, Some(id@)),
        Component::ButtonInput { text, id } => seq![PageRow::Button { text: text@, id: id@ }],
        Component::TextInput { label, id } => match form {
            Some(f) => seq![PageRow::Input { label: label@, id: id@, form_id: f }],
            None => seq![PageRow::Label("[input: "@ + label@ + "]"@)],
        },
        Component::DropdownInput { label, options, id } => match form {
            Some(f) => seq![
                PageRow::Dropdown {
                    label: label@,
                    options: strings_view(options@),
                    id: id@,
                    form_id: f,
                },
            ],
            None => seq![PageRow::Label("[dropdown: "@ + label@ + "]"@)],
        },
        Component::SubmitInput { text } => match form {
            Some(f) => seq![PageRow::Submit { text: text@, form_id: f }],
            None => Seq::empty(),
        },
        Component::Chain { id } => seq![PageRow::Label("Chain: "@ + id@)],
        Component::Account { id } => seq![PageRow::Label("Account: "@ + id@)],
        Component::Asset { id, balance } => seq![
            PageRow::Label("Asset: "@ + id@ + "  balance: "@ + balance_text(balance)),
        ],
        Component::EntityId { id } => seq![PageRow::Label("Entity: "@ + id@)],
        Component::Hex { data } => seq![PageRow::Label("0x"@ + hex_lower(data@))],
    }
}

/// The rows of a sequence of sibling components, in order.
pub open spec fn flat_all(cs: Seq<Component>, form: Option<Seq<char>>) -> Seq<PageRow>
    decreases cs,
{
    if cs.len() == 0 {
        Seq::empty()
    } else {
        flat_all(cs.subrange(0, cs.len() - 1), form) + flat(cs[cs.len() - 1], form)
    }
}

/// The rows of a bulleted list: each key as a bullet label, then its component.
pub open spec fn flat_list(items: Seq<(String, Component)>, form: Option<Seq<char>>) -> Seq<PageRow>
    decreases items,
{
    if items.len() == 0 {
        Seq::empty()
    } else {
        flat_list(items.subrange(0, items.len() - 1), form) + seq![
            PageRow::Label("\u{2022} "@ + items[items.len() - 1].0@),
        ] + flat(items[items.len() - 1].1, form)
    }
}

impl PageItem {
    /// Every row but a label can take the cursor.
    pub fn is_interactive(&self) -> (r: bool)
        ensures
            r == self@.interactive(),
    {
        !matches!(self, PageItem::Label(_))
    }
}

/// The form id that the rows of a component inherit.
pub open spec fn form_view(form_ctx: Option<&str>) -> Option<Seq<char>> {
    match form_ctx {
        Some(f) => Some(f@),
        None => None,
    }
}

/// Flattens a component tree into page rows. Inputs, dropdowns and submit
/// buttons belong to the innermost enclosing form; outside any form an input
/// or a dropdown is shown as a label and a submit button is dropped.
pub fn flatten(component: &Component) -> (out: Vec<PageItem>)
    ensures
        rows(out@) == flat(*component, None),
{
    let mut out = Vec::new();
    flatten_inner(component, None, &mut out);
    proof {
        assert(rows(out@) =~= rows(Seq::<PageItem>::empty()) + flat(*component, None));
    }
    out
}

fn label(prefix: &str, text: &str) -> (r: PageItem)
    ensures
        r@ == PageRow::Label(prefix@ + text@),
{
    PageItem::Label(String::from_str(prefix).concat(text))
}

fn copy_strings(v: &Vec<String>) -> (r: Vec<String>)
    ensures
        strings_view(r@) == strings_view(v@),
{
    let mut r: Vec<String> = Vec::new();
    for i in 0..v.len()
        invariant
            r@.len() == i,
            forall|j: int| 0 <= j < i ==> #[trigger] r@[j]@ == v@[j]@,
    {
        r.push(v[i].clone());
    }
    assert(strings_view(r@) =~= strings_view(v@));
    r
}

fn push_row(out: &mut Vec<PageItem>, item: PageItem)
    ensures
        rows(final(out)@) == rows(old(out)@) + seq![item@],
{
    out.push(item);
    assert(rows(out@) =~= rows(old(out)@) + seq![item@]);
}

/// Appends the rows of `component` to `out`, inside the form `form_ctx` if
/// there is one; the rows already in `out` stay as they are.
pub fn flatten_inner(component: &Component, form_ctx: Option<&str>, out: &mut Vec<PageItem>)
    ensures
        rows(final(out)@) == rows(old(out)@) + flat(*component, form_view(form_ctx)),
    decreases component,
{
    let ghost form = form_view(form_ctx);
    match component {
        Component::Container { children } => {
            flatten_children(children, form_ctx, out);
        },
        Component::Heading { text } => push_row(out, label("## ", text.as_str())),
        Component::Heading2 { text } => push_row(out, label("# ", text.as_str())),
        Component::Text { text } => push_row(out, PageItem::Label(text.clone())),
        Component::UnorderedList { items } => {
            flatten_list(items, form_ctx, out);
        },
        Component::Form { id, fields } => {
            flatten_children(fields, Some(id.as_str()), out);
        },
        Component::ButtonInput { text, id } => push_row(
            out,
            PageItem::Button { text: text.clone(), id: id.clone() },
        ),
        Component::TextInput { label: l, id } => {
            match form_ctx {
                Some(form_id) => push_row(
                    out,
                    PageItem::Input {
                        label: l.clone(),
                        id: id.clone(),
                        form_id: String::from_str(form_id),
                    },
                ),
                None => push_row(
                    out,
                    PageItem::Label(String::from_str("[input: ").concat(l.as_str()).concat("]")),
                ),
            }
        },
        Component::DropdownInput { label: l, options, id } => {
            match form_ctx {
                Some(form_id) => push_row(
                    out,
                    PageItem::Dropdown {
                        label: l.clone(),
                        options: copy_strings(options),
                        id: id.clone(),
                        form_id: String::from_str(form_id),
                    },
                ),
                None => push_row(
                    out,
                    PageItem::Label(
                        String::from_str("[dropdown: ").concat(l.as_str()).concat("]"),
                    ),
                ),
            }
        },
        Component::SubmitInput { text } => {
            match form_ctx {
                Some(form_id) => push_row(
                    out,
                    PageItem::Submit { text: text.clone(), form_id: String::from_str(form_id) },
                ),
                None => {
                    assert(rows(out@) =~= rows(old(out)@) + flat(*component, form));
                },
            }
        },
        Component::Chain { id } => push_row(out, label("Chain: ", id.as_str())),
        Component::Account { id } => push_row(out, label("Account: ", id.as_str())),
        Component::Asset { id, balance } => {
            let bal = match balance {
                Some(b) => b.clone(),
                None => String::from_str("\u{2014}"),
            };
            push_row(
                out,
                PageItem::Label(
                    String::from_str("Asset: ").concat(id.as_str()).concat("  balance: ").concat(
                        bal.as_str(),
                    ),
                ),
            );
        },
        Component::EntityId { id } => push_row(out, label("Entity: ", id.as_str())),
        Component::Hex { data } => {
            let digits = hex_encode(data.as_slice());
            push_row(out, label("0x", digits.as_str()));
        },
    }
}

fn flatten_list(items: &Vec<(String, Component)>, form_ctx: Option<&str>, out: &mut Vec<PageItem>)
    ensures
        rows(final(out)@) == rows(old(out)@) + flat_list(items@, form_view(form_ctx)),
    decreases items,
{
    let ghost form = form_view(form_ctx);
    let ghost start = rows(out@);
    for i in 0..items.len()
        invariant
            rows(out@) == start + flat_list(items@.subrange(0, i as int), form),
            form == form_view(form_ctx),
    {
        proof {
            assert(items@.subrange(0, i + 1).subrange(0, i as int) =~= items@.subrange(
                0,
                i as int,
            ));
        }
        push_row(out, label("\u{2022} ", items[i].0.as_str()));
        let entry = &items[i];
        assert(decreases_to!(items => entry.1));
        flatten_inner(&entry.1, form_ctx, out);
        proof {
            assert(rows(out@) =~= start + flat_list(items@.subrange(0, i + 1), form));
        }
    }
    assert(items@.subrange(0, items@.len() as int) =~= items@);
}

fn flatten_children(children: &Vec<Component>, form_ctx: Option<&str>, out: &mut Vec<PageItem>)
    ensures
        rows(final(out)@) == rows(old(out)@) + flat_all(children@, form_view(form_ctx)),
    decreases children,
{
    let ghost form = form_view(form_ctx);
    let ghost start = rows(out@);
    for i in 0..children.len()
        invariant
            rows(out@) == start + flat_all(children@.subrange(0, i as int), form),
            form == form_view(form_ctx),
    {
        proof {
            assert(children@.subrange(0, i + 1).subrange(0, i as int) =~= children@.subrange(
                0,
                i as int,
            ));
        }
        flatten_inner(&children[i], form_ctx, out);
        proof {
            assert(rows(out@) =~= start + flat_all(children@.subrange(0, i + 1), form));
        }
    }
    assert(children@.subrange(0, children@.len() as int) =~= children@);
}

/// Flattening sibling components in turn: the rows of a sequence of
/// siblings are the rows of a first part followed by those of the rest.
pub proof fn law_flatten_concatenates(a: Seq<Component>, b: Seq<Component>, form: Option<Seq<char>>)
    ensures
        flat_all(a + b, form) == flat_all(a, form) + flat_all(b, form),
    decreases b.len(),
{
    if b.len() == 0 {
        assert(a + b =~= a);
        assert(flat_all(b, form) =~= Seq::<PageRow>::empty());
        assert(flat_all(a, form) + flat_all(b, form) =~= flat_all(a, form));
    } else {
        let b0 = b.subrange(0, b.len() - 1);
        law_flatten_concatenates(a, b0, form);
        assert((a + b).subrange(0, (a + b).len() - 1) =~= a + b0);
        assert((a + b)[(a + b).len() - 1] == b[b.len() - 1]);
        assert(flat_all(a + b, form) =~= flat_all(a, form) + flat_all(b, form));
    }
}

/// Flattening follows the tree: a container's rows are its children's rows
/// in order, each child in the container's form context; a form's rows are
/// its fields' rows in order, under the form's own id whatever context
/// encloses it; among siblings each one's rows stand between those of the
/// siblings before it and those after it.
pub proof fn law_flatten_tree(
    c: Component,
    cs: Seq<Component>,
    i: int,
    form: Option<Seq<char>>,
    other: Option<Seq<char>>,
)
    requires
        0 <= i < cs.len(),
    ensures
        c is Container ==> flat(c, form) == flat_all(c->Container_children@, form),
        c is Form ==> flat(c, form) == flat_all(c->Form_fields@, Some(c->Form_id@)),
        c is Form ==> flat(c, form) == flat(c, other),
        flat_all(cs, form) == flat_all(cs.take(i), form) + flat(cs[i], form) + flat_all(
            cs.skip(i + 1),
            form,
        ),
{
    let one = seq![cs[i]];
    assert(cs =~= cs.take(i) + one + cs.skip(i + 1));
    law_flatten_concatenates(cs.take(i) + one, cs.skip(i + 1), form);
    law_flatten_concatenates(cs.take(i), one, form);
    assert(one.subrange(0, 0) =~= Seq::<Component>::empty());
    assert(flat_all(one, form) == flat_all(one.subrange(0, 0), form) + flat(one[0], form));
    assert(flat_all(one, form) =~= flat(cs[i], form));
}

/// Outside any form a submit button shows nothing, and a text field or a
/// dropdown shows as a single label; inside a form each becomes one row
/// that carries the form's id.
pub proof fn law_form_context(c: Component, f: Seq<char>)
    requires
        c is SubmitInput || c is TextInput || c is DropdownInput,
    ensures
        c is SubmitInput ==> flat(c, None).len() == 0,
        !(c is SubmitInput) ==> flat(c, None).len() == 1 && flat(c, None)[0] is Label,
        flat(c, Some(f)).len() == 1,
        flat(c, Some(f))[0] is Input ==> flat(c, Some(f))[0]->Input_form_id == f,
        flat(c, Some(f))[0] is Dropdown ==> flat(c, Some(f))[0]->Dropdown_form_id == f,
        flat(c, Some(f))[0] is Submit ==> flat(c, Some(f))[0]->Submit_form_id == f,
        !(flat(c, Some(f))[0] is Label),
{
}

/// The controls of a component tree: its buttons, text fields, dropdowns
/// and submit buttons, wherever they stand in it.
pub open spec fn controls(c: Component) -> nat
    decreases c,
{
    match c {
        Component::Container { children } => controls_all(children@),
        Component::UnorderedList { items } => controls_list(items@),
        Component::Form { fields, .. } => controls_all(fields@),
        Component::ButtonInput { .. } => 1,
        Component::TextInput { .. } => 1,
        Component::DropdownInput { .. } => 1,
        Component::SubmitInput { .. } => 1,
        _ => 0,
    }
}

/// The controls of a sequence of sibling components.
pub open spec fn controls_all(cs: Seq<Component>) -> nat
    decreases cs,
{
    if cs.len() == 0 {
        0
    } else {
        controls_all(cs.subrange(0, cs.len() - 1)) + controls(cs[cs.len() - 1])
    }
}

/// The controls of the components of a bulleted list.
pub open spec fn controls_list(items: Seq<(String, Component)>) -> nat
    decreases items,
{
    if items.len() == 0 {
        0
    } else {
        controls_list(items.subrange(0, items.len() - 1)) + controls(items[items.len() - 1].1)
    }
}

/// The number of rows that take the cursor.
pub open spec fn control_rows(rows: Seq<PageRow>) -> nat
    decreases rows.len(),
{
    if rows.len() == 0 {
        0
    } else {
        control_rows(rows.drop_last()) + if rows.last().interactive() {
            1nat
        } else {
            0nat
        }
    }
}

/// A single row counts when it takes the cursor.
proof fn lemma_control_rows_one(x: PageRow)
    ensures
        control_rows(seq![x]) == if x.interactive() {
            1nat
        } else {
            0nat
        },
{
    assert(seq![x].drop_last() =~= Seq::<PageRow>::empty());
    assert(seq![x].last() == x);
    assert(control_rows(Seq::<PageRow>::empty()) == 0);
}

/// Counting the rows that take the cursor adds up over a concatenation.
pub proof fn lemma_control_rows_add(a: Seq<PageRow>, b: Seq<PageRow>)
    ensures
        control_rows(a + b) == control_rows(a) + control_rows(b),
    decreases b.len(),
{
    if b.len() == 0 {
        assert(a + b =~= a);
    } else {
        lemma_control_rows_add(a, b.drop_last());
        assert((a + b).drop_last() =~= a + b.drop_last());
    }
}

/// Inside a form, every control of a component tree becomes a row that
/// takes the cursor, however deeply it is nested in containers, lists and
/// forms, and no other row takes it.
pub proof fn law_controls_in_form(c: Component, f: Seq<char>)
    ensures
        control_rows(flat(c, Some(f))) == controls(c),
    decreases c,
{
    match c {
        Component::Container { children } => {
            lemma_controls_all_in_form(children@, f);
            assert(flat(c, Some(f)) == flat_all(children@, Some(f)));
            assert(controls(c) == controls_all(children@));
        },
        Component::UnorderedList { items } => {
            lemma_controls_list_in_form(items@, f);
            assert(flat(c, Some(f)) == flat_list(items@, Some(f)));
        },
        Component::Form { id, fields } => {
            lemma_controls_all_in_form(fields@, id@);
            assert(flat(c, Some(f)) == flat_all(fields@, Some(id@)));
        },
        _ => {
            let r = flat(c, Some(f));
            assert(r.len() == 1);
            assert(r =~= seq![r[0]]);
            lemma_control_rows_one(r[0]);
        },
    }
}

proof fn lemma_controls_all_in_form(cs: Seq<Component>, f: Seq<char>)
    ensures
        control_rows(flat_all(cs, Some(f))) == controls_all(cs),
    decreases cs,
{
    if cs.len() > 0 {
        let init = cs.subrange(0, cs.len() - 1);
        lemma_controls_all_in_form(init, f);
        law_controls_in_form(cs[cs.len() - 1], f);
        lemma_control_rows_add(flat_all(init, Some(f)), flat(cs[cs.len() - 1], Some(f)));
    }
}

proof fn lemma_controls_list_in_form(items: Seq<(String, Component)>, f: Seq<char>)
    ensures
        control_rows(flat_list(items, Some(f))) == controls_list(items),
    decreases items,
{
    if items.len() > 0 {
        let init = items.subrange(0, items.len() - 1);
        let last = items[items.len() - 1];
        let bullet = seq![PageRow::Label("\u{2022} "@ + last.0@)];
        lemma_controls_list_in_form(init, f);
        assert(decreases_to!(items => last.1));
        law_controls_in_form(last.1, f);
        lemma_control_rows_add(flat_list(init, Some(f)), bullet);
        lemma_control_rows_add(flat_list(init, Some(f)) + bullet, flat(last.1, Some(f)));
        lemma_control_rows_one(bullet[0]);
        assert(flat_list(items, Some(f)) == flat_list(init, Some(f)) + bullet + flat(
            last.1,
            Some(f),
        ));
        assert(controls_list(items) == controls_list(init) + controls(last.1));
    }
}

/// Whether a component tree holds a form.
pub open spec fn has_form(c: Component) -> bool
    decreases c,
{
    match c {
        Component::Container { children } => has_form_all(children@),
        Component::UnorderedList { items } => has_form_list(items@),
        Component::Form { .. } => true,
        _ => false,
    }
}

/// Whether one of the sibling components holds a form.
pub open spec fn has_form_all(cs: Seq<Component>) -> bool
    decreases cs,
{
    if cs.len() == 0 {
        false
    } else {
        has_form_all(cs.subrange(0, cs.len() - 1)) || has_form(cs[cs.len() - 1])
    }
}

/// Whether one of the components of a bulleted list holds a form.
pub open spec fn has_form_list(items: Seq<(String, Component)>) -> bool
    decreases items,
{
    if items.len() == 0 {
        false
    } else {
        has_form_list(items.subrange(0, items.len() - 1)) || has_form(items[items.len() - 1].1)
    }
}

/// The form that a row belongs to, for a text field, a dropdown or a submit
/// button.
pub open spec fn row_form(r: PageRow) -> Option<Seq<char>> {
    match r {
        PageRow::Input { form_id, .. } => Some(form_id),
        PageRow::Dropdown { form_id, .. } => Some(form_id),
        PageRow::Submit { form_id, .. } => Some(form_id),
        _ => None,
    }
}

/// Every row that belongs to a form belongs to `f`.
pub open spec fn all_in_form(rows: Seq<PageRow>, f: Seq<char>) -> bool {
    forall|i: int| 0 <= i < rows.len() ==> #[trigger] row_form(rows[i]) is None || row_form(rows[i])
        == Some(f)
}

proof fn lemma_all_in_form_add(a: Seq<PageRow>, b: Seq<PageRow>, f: Seq<char>)
    requires
        all_in_form(a, f),
        all_in_form(b, f),
    ensures
        all_in_form(a + b, f),
{
    assert forall|i: int| 0 <= i < (a + b).len() implies #[trigger] row_form((a + b)[i]) is None
        || row_form((a + b)[i]) == Some(f) by {
        if i >= a.len() {
            assert((a + b)[i] == b[i - a.len()]);
        }
    }
}

/// In a tree that holds no form of its own, every text field, dropdown and
/// submit button belongs to the form that encloses the tree, however deeply
/// it is nested in containers and lists.
pub proof fn law_fields_join_enclosing_form(c: Component, f: Seq<char>)
    requires
        !has_form(c),
    ensures
        all_in_form(flat(c, Some(f)), f),
    decreases c,
{
    match c {
        Component::Container { children } => {
            lemma_all_fields_join(children@, f);
            assert(flat(c, Some(f)) == flat_all(children@, Some(f)));
        },
        Component::UnorderedList { items } => {
            lemma_list_fields_join(items@, f);
            assert(flat(c, Some(f)) == flat_list(items@, Some(f)));
        },
        _ => {},
    }
}

proof fn lemma_all_fields_join(cs: Seq<Component>, f: Seq<char>)
    requires
        !has_form_all(cs),
    ensures
        all_in_form(flat_all(cs, Some(f)), f),
    decreases cs,
{
    if cs.len() > 0 {
        let init = cs.subrange(0, cs.len() - 1);
        lemma_all_fields_join(init, f);
        law_fields_join_enclosing_form(cs[cs.len() - 1], f);
        lemma_all_in_form_add(flat_all(init, Some(f)), flat(cs[cs.len() - 1], Some(f)), f);
    }
}

proof fn lemma_list_fields_join(items: Seq<(String, Component)>, f: Seq<char>)
    requires
        !has_form_list(items),
    ensures
        all_in_form(flat_list(items, Some(f)), f),
    decreases items,
{
    if items.len() > 0 {
        let init = items.subrange(0, items.len() - 1);
        let last = items[items.len() - 1];
        let bullet = seq![PageRow::Label("\u{2022} "@ + last.0@)];
        lemma_list_fields_join(init, f);
        assert(decreases_to!(items => last.1));
        law_fields_join_enclosing_form(last.1, f);
        assert(all_in_form(bullet, f));
        lemma_all_in_form_add(flat_list(init, Some(f)), bullet, f);
        lemma_all_in_form_add(flat_list(init, Some(f)) + bullet, flat(last.1, Some(f)), f);
        assert(flat_list(items, Some(f)) == flat_list(init, Some(f)) + bullet + flat(
            last.1,
            Some(f),
        ));
    }
}

} // verus!
