//! What the shape of a JSON document is measured against.
//!
//! A document is scanned as text. The law here says what the scan finds in the
//! text of any JSON value: how deep its arrays and objects are nested, and how
//! many values it is made of.

use vstd::prelude::*;

use crate::digest::hex_digit;
use crate::json::{
    json_char, json_chars, json_depth, json_nodes, json_string, scan_start, scan_step, shape_is_bounded, Literal, Scan,
};

verus! {

/// A JSON value.
pub enum JsonTree {
    /// Number, truth value or null, as it is written.
    Plain(Seq<char>),
    /// String.
    Text(Seq<char>),
    /// Array of its elements.
    Array(Seq<JsonTree>),
    /// Object with its keys and, in the same order, its values.
    Object(Seq<Seq<char>>, Seq<JsonTree>),
}

/// Compact text of a value.
pub open spec fn printed(tree: JsonTree) -> Seq<char>
    decreases tree, 0int,
{
    match tree {
        JsonTree::Plain(text) => text,
        JsonTree::Text(text) => json_string(text),
        JsonTree::Array(elements) => seq!['['] + printed_elements(elements, elements.len() as int) + seq![']'],
        JsonTree::Object(keys, values) => seq!['{'] + printed_members(keys, values, values.len() as int) + seq!['}'],
    }
}

/// Compact text of the first elements of an array.
pub open spec fn printed_elements(elements: Seq<JsonTree>, n: int) -> Seq<char>
    decreases elements, n,
{
    if n <= 0 || n > elements.len() {
        Seq::empty()
    } else if n == 1 {
        printed(elements[0])
    } else {
        printed_elements(elements, n - 1) + seq![','] + printed(elements[n - 1])
    }
}

/// Compact text of the first members of an object.
pub open spec fn printed_members(keys: Seq<Seq<char>>, values: Seq<JsonTree>, n: int) -> Seq<char>
    decreases values, n,
{
    if n <= 0 || n > values.len() {
        Seq::empty()
    } else if n == 1 {
        json_string(keys[0]) + seq![':'] + printed(values[0])
    } else {
        printed_members(keys, values, n - 1) + seq![','] + (json_string(keys[n - 1]) + seq![':'] + printed(values[n - 1]))
    }
}

/// Whether numbers and words are written without characters of structure.
pub open spec fn is_printable(tree: JsonTree) -> bool
    decreases tree,
{
    match tree {
        JsonTree::Plain(text) => {
            &&& text.len() > 0
            &&& forall|k: int|
                0 <= k < text.len() ==> #[trigger] text[k] != '"' && text[k] != ',' && text[k] != '[' && text[k] != ']'
                    && text[k] != '{' && text[k] != '}'
        },
        JsonTree::Text(_) => true,
        JsonTree::Array(elements) => forall|k: int| 0 <= k < elements.len() ==> is_printable(#[trigger] elements[k]),
        JsonTree::Object(_, values) => forall|k: int| 0 <= k < values.len() ==> is_printable(#[trigger] values[k]),
    }
}

/// How deep arrays and objects are nested in a value.
pub open spec fn levels(tree: JsonTree) -> nat
    decreases tree, 0int,
{
    match tree {
        JsonTree::Plain(_) => 0,
        JsonTree::Text(_) => 0,
        JsonTree::Array(parts) => 1 + most_levels(parts, parts.len() as int),
        JsonTree::Object(_, parts) => 1 + most_levels(parts, parts.len() as int),
    }
}

/// How deep arrays and objects are nested in one of the first values.
pub open spec fn most_levels(parts: Seq<JsonTree>, n: int) -> nat
    decreases parts, n,
{
    if n <= 0 || n > parts.len() {
        0
    } else {
        let (earlier, last) = (most_levels(parts, n - 1), levels(parts[n - 1]));
        if last > earlier {
            last
        } else {
            earlier
        }
    }
}

/// How many values a value is made of, itself among them.
pub open spec fn size(tree: JsonTree) -> nat
    decreases tree, 0int,
{
    match tree {
        JsonTree::Plain(_) => 1,
        JsonTree::Text(_) => 1,
        JsonTree::Array(parts) => 1 + total_size(parts, parts.len() as int),
        JsonTree::Object(_, parts) => 1 + total_size(parts, parts.len() as int),
    }
}

/// How many values the first values are made of.
pub open spec fn total_size(parts: Seq<JsonTree>, n: int) -> nat
    decreases parts, n,
{
    if n <= 0 || n > parts.len() {
        0
    } else {
        total_size(parts, n - 1) + size(parts[n - 1])
    }
}

spec fn scanned(from: Scan, text: Seq<char>) -> Scan {
    text.fold_left(from, |progress: Scan, c: char| scan_step(progress, c))
}

proof fn lemma_scan_goes_on(from: Scan, a: Seq<char>, b: Seq<char>)
    ensures
        scanned(from, a + b) == scanned(scanned(from, a), b),
    decreases b.len(),
{
    if b.len() == 0 {
        assert(a + b =~= a);
    } else {
        lemma_scan_goes_on(from, a, b.drop_last());
        assert((a + b).drop_last() =~= a + b.drop_last());
    }
}

proof fn lemma_scan_one(from: Scan, c: char)
    ensures
        scanned(from, seq![c]) == scan_step(from, c),
{
    let f = |progress: Scan, c: char| scan_step(progress, c);
    assert(seq![c].drop_last() =~= Seq::<char>::empty());
    assert(Seq::<char>::empty().fold_left(from, f) == from);
}

proof fn lemma_scan_char(from: Scan, c: char)
    requires
        from.literal == Literal::Inside,
    ensures
        scanned(from, json_char(c)) == from,
{
    let text = json_char(c);
    if text.len() == 1 {
        assert(text =~= seq![c]);
        lemma_scan_one(from, c);
    } else if text.len() == 2 {
        assert(text =~= seq!['\\'] + seq![text[1]]);
        lemma_scan_goes_on(from, seq!['\\'], seq![text[1]]);
        lemma_scan_one(from, '\\');
        lemma_scan_one(scan_step(from, '\\'), text[1]);
    } else {
        let (high, low) = (hex_digit(c as int / 16), hex_digit(c as int % 16));
        assert(high != '"' && high != '\\' && low != '"' && low != '\\');
        let front = seq!['\\'] + seq!['u'] + seq!['0'] + seq!['0'] + seq![high];
        assert(text =~= front + seq![low]);
        lemma_scan_goes_on(from, front, seq![low]);
        lemma_scan_goes_on(from, seq!['\\'] + seq!['u'] + seq!['0'] + seq!['0'], seq![high]);
        lemma_scan_goes_on(from, seq!['\\'] + seq!['u'] + seq!['0'], seq!['0']);
        lemma_scan_goes_on(from, seq!['\\'] + seq!['u'], seq!['0']);
        lemma_scan_goes_on(from, seq!['\\'], seq!['u']);
        lemma_scan_one(from, '\\');
        lemma_scan_one(scan_step(from, '\\'), 'u');
        lemma_scan_one(from, '0');
        lemma_scan_one(from, high);
        lemma_scan_one(from, low);
    }
}

proof fn lemma_scan_chars(from: Scan, text: Seq<char>)
    requires
        from.literal == Literal::Inside,
    ensures
        scanned(from, json_chars(text)) == from,
    decreases text.len(),
{
    if text.len() > 0 {
        lemma_scan_chars(from, text.drop_last());
        lemma_scan_goes_on(from, json_chars(text.drop_last()), json_char(text.last()));
        lemma_scan_char(from, text.last());
    }
}

proof fn lemma_scan_string(from: Scan, text: Seq<char>)
    requires
        from.literal == Literal::Outside,
    ensures
        scanned(from, json_string(text)) == (Scan { opened: false, ..from }),
{
    let inside = scan_step(from, '"');
    lemma_scan_goes_on(from, seq!['"'] + json_chars(text), seq!['"']);
    lemma_scan_goes_on(from, seq!['"'], json_chars(text));
    lemma_scan_one(from, '"');
    lemma_scan_chars(inside, text);
    lemma_scan_one(inside, '"');
}

proof fn lemma_scan_plain(from: Scan, text: Seq<char>)
    requires
        from.literal == Literal::Outside,
        text.len() > 0,
        is_printable(JsonTree::Plain(text)),
    ensures
        scanned(from, text) == (Scan { opened: false, ..from }),
    decreases text.len(),
{
    let shorter = text.drop_last();
    assert(text[text.len() - 1] == text.last());
    if shorter.len() > 0 {
        assert forall|k: int| 0 <= k < shorter.len() implies #[trigger] shorter[k] == text[k] by {}
        lemma_scan_plain(from, shorter);
    } else {
        assert(text =~= seq![text.last()]);
        lemma_scan_one(from, text.last());
    }
}

/// What a scan has found behind a value.
spec fn finds(from: Scan, to: Scan, depth: nat, nodes: int) -> bool {
    &&& to.literal == Literal::Outside
    &&& !to.opened
    &&& to.depth == from.depth
    &&& to.deepest == if from.depth + depth > from.deepest {
        from.depth + depth
    } else {
        from.deepest
    }
    &&& to.nodes == from.nodes + nodes
}

proof fn lemma_scan_tree(from: Scan, tree: JsonTree)
    requires
        is_printable(tree),
        from.literal == Literal::Outside,
        from.depth <= from.deepest,
    ensures
        finds(from, scanned(from, printed(tree)), levels(tree), size(tree) - 1),
    decreases tree, 0int,
{
    match tree {
        JsonTree::Plain(text) => {
            lemma_scan_plain(from, text);
        },
        JsonTree::Text(text) => {
            lemma_scan_string(from, text);
        },
        JsonTree::Array(elements) => {
            let inner = printed_elements(elements, elements.len() as int);
            let begun = scan_step(from, '[');
            lemma_scan_goes_on(from, seq!['['] + inner, seq![']']);
            lemma_scan_goes_on(from, seq!['['], inner);
            lemma_scan_one(from, '[');
            lemma_scan_one(scanned(begun, inner), ']');
            if elements.len() > 0 {
                lemma_scan_elements(begun, elements, elements.len() as int);
            } else {
                assert(scanned(begun, inner) == begun);
            }
        },
        JsonTree::Object(keys, values) => {
            let inner = printed_members(keys, values, values.len() as int);
            let begun = scan_step(from, '{');
            lemma_scan_goes_on(from, seq!['{'] + inner, seq!['}']);
            lemma_scan_goes_on(from, seq!['{'], inner);
            lemma_scan_one(from, '{');
            lemma_scan_one(scanned(begun, inner), '}');
            if values.len() > 0 {
                lemma_scan_members(begun, keys, values, values.len() as int);
            } else {
                assert(scanned(begun, inner) == begun);
            }
        },
    }
}

proof fn lemma_scan_elements(from: Scan, elements: Seq<JsonTree>, n: int)
    requires
        0 < n <= elements.len(),
        forall|k: int| 0 <= k < elements.len() ==> is_printable(#[trigger] elements[k]),
        from.literal == Literal::Outside,
        from.depth <= from.deepest,
    ensures
        finds(from, scanned(from, printed_elements(elements, n)), most_levels(elements, n), total_size(elements, n) - 1),
    decreases elements, n,
{
    let last = elements[n - 1];
    if n == 1 {
        assert(most_levels(elements, 0) == 0 && total_size(elements, 0) == 0);
        lemma_scan_tree(from, last);
    } else {
        let earlier = printed_elements(elements, n - 1);
        lemma_scan_elements(from, elements, n - 1);
        let passed = scanned(from, earlier);
        lemma_scan_goes_on(from, earlier + seq![','], printed(last));
        lemma_scan_goes_on(from, earlier, seq![',']);
        lemma_scan_one(passed, ',');
        lemma_scan_tree(scan_step(passed, ','), last);
    }
}

proof fn lemma_scan_member(from: Scan, key: Seq<char>, value: JsonTree)
    requires
        is_printable(value),
        from.literal == Literal::Outside,
        from.depth <= from.deepest,
    ensures
        finds(from, scanned(from, json_string(key) + seq![':'] + printed(value)), levels(value), size(value) - 1),
    decreases value, 1int,
{
    let named = Scan { opened: false, ..from };
    lemma_scan_goes_on(from, json_string(key) + seq![':'], printed(value));
    lemma_scan_goes_on(from, json_string(key), seq![':']);
    lemma_scan_string(from, key);
    lemma_scan_one(named, ':');
    lemma_scan_tree(named, value);
}

proof fn lemma_scan_members(from: Scan, keys: Seq<Seq<char>>, values: Seq<JsonTree>, n: int)
    requires
        0 < n <= values.len(),
        forall|k: int| 0 <= k < values.len() ==> is_printable(#[trigger] values[k]),
        from.literal == Literal::Outside,
        from.depth <= from.deepest,
    ensures
        finds(from, scanned(from, printed_members(keys, values, n)), most_levels(values, n), total_size(values, n) - 1),
    decreases values, n,
{
    let last = values[n - 1];
    if n == 1 {
        assert(most_levels(values, 0) == 0 && total_size(values, 0) == 0);
        lemma_scan_member(from, keys[0], last);
    } else {
        let earlier = printed_members(keys, values, n - 1);
        let member = json_string(keys[n - 1]) + seq![':'] + printed(last);
        lemma_scan_members(from, keys, values, n - 1);
        let passed = scanned(from, earlier);
        lemma_scan_goes_on(from, earlier + seq![','], member);
        lemma_scan_goes_on(from, earlier, seq![',']);
        lemma_scan_one(passed, ',');
        lemma_scan_member(scan_step(passed, ','), keys[n - 1], last);
    }
}

/// The shape of a document is that of the value it stands for: its depth is how
/// deep arrays and objects are nested, and its nodes are all values in it.
/// Characters inside strings add nothing.
pub proof fn law_shapes_are_those_of_the_value(tree: JsonTree)
    requires
        is_printable(tree),
    ensures
        json_depth(printed(tree)) == levels(tree),
        json_nodes(printed(tree)) == size(tree),
        shape_is_bounded(printed(tree)) <==> levels(tree) <= 64 && size(tree) <= 65_536,
{
    lemma_scan_tree(scan_start(), tree);
}

} // verus!
