//! What selector matching asks of the document: tree navigation by index
//! paths, names, ids, classes, attributes and pseudo-classes. The selector
//! engine itself is the `selectors` crate, which the application drives
//! through these functions.
use vstd::prelude::*;

use crate::html::helper::node_text;
use crate::html::types::{first_attribute_value, opt_str_view, Attribute, Document, Element, Node};
use crate::text::{ascii_lower, eq_ignore_ascii_case, lower_ascii, str_eq_ignore_ascii_case, str_equal};
use vstd::utf8::encode_utf8;

verus! {

/// An identifier, class name or attribute value of a selector.
#[derive(Debug, Clone, PartialEq, Eq, Hash, Default)]
pub struct CssAtom(pub String);

/// The 32-bit FNV-1a hash of `bytes`.
pub open spec fn fnv1a(bytes: Seq<u8>) -> u32
    decreases bytes.len(),
{
    if bytes.len() == 0 {
        2166136261u32
    } else {
        (((fnv1a(bytes.drop_last()) ^ (bytes.last() as u32)) as nat * 16777619nat)
            % 0x1_0000_0000nat) as u32
    }
}

impl CssAtom {
    /// The atom holding `value`.
    pub fn from_str_value(value: &str) -> (a: CssAtom)
        ensures
            a.0@ == value@,
    {
        CssAtom(String::from_str(value))
    }

    /// The atom's text.
    pub fn as_str(&self) -> (s: &str)
        ensures
            s@ == self.0@,
    {
        self.0.as_str()
    }

    /// The FNV-1a hash of the atom's UTF-8 bytes, which the selector
    /// engine's caches and Bloom filter use.
    pub fn precomputed_hash(&self) -> (h: u32)
        ensures
            h == fnv1a(encode_utf8(self.0@)),
    {
        let bytes = self.0.as_str().as_bytes();
        let mut hash: u32 = 2166136261u32;
        let mut i: usize = 0;
        while i < bytes.len()
            invariant
                i <= bytes@.len(),
                bytes@ == encode_utf8(self.0@),
                hash == fnv1a(bytes@.take(i as int)),
            decreases bytes@.len() - i,
        {
            proof {
                let t = bytes@.take(i + 1);
                assert(t.drop_last() =~= bytes@.take(i as int));
                assert(t.last() == bytes@[i as int]);
            }
            hash = hash ^ (bytes[i] as u32);
            hash = hash.wrapping_mul(16777619u32);
            i += 1;
        }
        assert(bytes@.take(bytes@.len() as int) =~= bytes@);
        hash
    }
}

/// The pseudo-classes that selectors may use.
#[derive(Debug, Clone, Copy, PartialEq, Eq, Structural, Hash)]
pub enum PdfPseudoClass {
    Link,
    AnyLink,
    Visited,
    Hover,
    Active,
    Focus,
    FocusWithin,
    FocusVisible,
    Checked,
    Disabled,
    Enabled,
    Required,
    Optional,
    ReadOnly,
    ReadWrite,
}

/// The selector vocabulary of the renderer: which names the selector
/// engine's parser accepts.
#[derive(Debug, Clone, Copy, PartialEq, Eq, Hash)]
pub struct PdfSelectorImpl;

/// The selector parser's settings and its pseudo-class names.
#[derive(Debug, Clone, Copy)]
pub struct PdfSelectorParser;

/// The pseudo-class that `name` (without its colon) names, matched without
/// regard to ASCII case.
pub open spec fn pseudo_class_named(name: Seq<char>) -> Option<PdfPseudoClass> {
    if eq_ignore_ascii_case(name, "link"@) {
        Some(PdfPseudoClass::Link)
    } else if eq_ignore_ascii_case(name, "any-link"@) {
        Some(PdfPseudoClass::AnyLink)
    } else if eq_ignore_ascii_case(name, "visited"@) {
        Some(PdfPseudoClass::Visited)
    } else if eq_ignore_ascii_case(name, "hover"@) {
        Some(PdfPseudoClass::Hover)
    } else if eq_ignore_ascii_case(name, "active"@) {
        Some(PdfPseudoClass::Active)
    } else if eq_ignore_ascii_case(name, "focus"@) {
        Some(PdfPseudoClass::Focus)
    } else if eq_ignore_ascii_case(name, "focus-within"@) {
        Some(PdfPseudoClass::FocusWithin)
    } else if eq_ignore_ascii_case(name, "focus-visible"@) {
        Some(PdfPseudoClass::FocusVisible)
    } else if eq_ignore_ascii_case(name, "checked"@) {
        Some(PdfPseudoClass::Checked)
    } else if eq_ignore_ascii_case(name, "disabled"@) {
        Some(PdfPseudoClass::Disabled)
    } else if eq_ignore_ascii_case(name, "enabled"@) {
        Some(PdfPseudoClass::Enabled)
    } else if eq_ignore_ascii_case(name, "required"@) {
        Some(PdfPseudoClass::Required)
    } else if eq_ignore_ascii_case(name, "optional"@) {
        Some(PdfPseudoClass::Optional)
    } else if eq_ignore_ascii_case(name, "read-only"@) {
        Some(PdfPseudoClass::ReadOnly)
    } else if eq_ignore_ascii_case(name, "read-write"@) {
        Some(PdfPseudoClass::ReadWrite)
    } else {
        None
    }
}

/// The text of a pseudo-class, colon included.
pub open spec fn pseudo_class_text(pc: PdfPseudoClass) -> Seq<char> {
    match pc {
        PdfPseudoClass::Link => ":link"@,
        PdfPseudoClass::AnyLink => ":any-link"@,
        PdfPseudoClass::Visited => ":visited"@,
        PdfPseudoClass::Hover => ":hover"@,
        PdfPseudoClass::Active => ":active"@,
        PdfPseudoClass::Focus => ":focus"@,
        PdfPseudoClass::FocusWithin => ":focus-within"@,
        PdfPseudoClass::FocusVisible => ":focus-visible"@,
        PdfPseudoClass::Checked => ":checked"@,
        PdfPseudoClass::Disabled => ":disabled"@,
        PdfPseudoClass::Enabled => ":enabled"@,
        PdfPseudoClass::Required => ":required"@,
        PdfPseudoClass::Optional => ":optional"@,
        PdfPseudoClass::ReadOnly => ":read-only"@,
        PdfPseudoClass::ReadWrite => ":read-write"@,
    }
}

proof fn lemma_named_text(name: Seq<char>, word: Seq<char>, text: Seq<char>)
    requires
        eq_ignore_ascii_case(name, word),
        forall|i: int| 0 <= i < word.len() ==> !('A' <= #[trigger] word[i] && word[i] <= 'Z'),
        text =~= seq![':'] + word,
    ensures
        text == seq![':'] + lower_ascii(name),
{
    assert forall|i: int| 0 <= i < name.len() implies #[trigger] lower_ascii(name)[i] == word[i] by {
        assert(ascii_lower(name[i]) == ascii_lower(word[i]));
    }
    assert(lower_ascii(name) =~= word);
}

/// Writing a pseudo-class gives back the name it was parsed from: for each
/// name that parses, in any ASCII letter case, the pseudo-class's text is a
/// colon followed by the name in lower case.
pub proof fn law_pseudo_class_text_inverts_parsing(name: Seq<char>)
    requires
        pseudo_class_named(name) is Some,
    ensures
        pseudo_class_text(pseudo_class_named(name)->0) == seq![':'] + lower_ascii(name),
{
    if eq_ignore_ascii_case(name, "link"@) {
        reveal_strlit("link");
        reveal_strlit(":link");
        lemma_named_text(name, "link"@, ":link"@);
    } else if eq_ignore_ascii_case(name, "any-link"@) {
        reveal_strlit("any-link");
        reveal_strlit(":any-link");
        lemma_named_text(name, "any-link"@, ":any-link"@);
    } else if eq_ignore_ascii_case(name, "visited"@) {
        reveal_strlit("visited");
        reveal_strlit(":visited");
        lemma_named_text(name, "visited"@, ":visited"@);
    } else if eq_ignore_ascii_case(name, "hover"@) {
        reveal_strlit("hover");
        reveal_strlit(":hover");
        lemma_named_text(name, "hover"@, ":hover"@);
    } else if eq_ignore_ascii_case(name, "active"@) {
        reveal_strlit("active");
        reveal_strlit(":active");
        lemma_named_text(name, "active"@, ":active"@);
    } else if eq_ignore_ascii_case(name, "focus"@) {
        reveal_strlit("focus");
        reveal_strlit(":focus");
        lemma_named_text(name, "focus"@, ":focus"@);
    } else if eq_ignore_ascii_case(name, "focus-within"@) {
        reveal_strlit("focus-within");
        reveal_strlit(":focus-within");
        lemma_named_text(name, "focus-within"@, ":focus-within"@);
    } else if eq_ignore_ascii_case(name, "focus-visible"@) {
        reveal_strlit("focus-visible");
        reveal_strlit(":focus-visible");
        lemma_named_text(name, "focus-visible"@, ":focus-visible"@);
    } else if eq_ignore_ascii_case(name, "checked"@) {
        reveal_strlit("checked");
        reveal_strlit(":checked");
        lemma_named_text(name, "checked"@, ":checked"@);
    } else if eq_ignore_ascii_case(name, "disabled"@) {
        reveal_strlit("disabled");
        reveal_strlit(":disabled");
        lemma_named_text(name, "disabled"@, ":disabled"@);
    } else if eq_ignore_ascii_case(name, "enabled"@) {
        reveal_strlit("enabled");
        reveal_strlit(":enabled");
        lemma_named_text(name, "enabled"@, ":enabled"@);
    } else if eq_ignore_ascii_case(name, "required"@) {
        reveal_strlit("required");
        reveal_strlit(":required");
        lemma_named_text(name, "required"@, ":required"@);
    } else if eq_ignore_ascii_case(name, "optional"@) {
        reveal_strlit("optional");
        reveal_strlit(":optional");
        lemma_named_text(name, "optional"@, ":optional"@);
    } else if eq_ignore_ascii_case(name, "read-only"@) {
        reveal_strlit("read-only");
        reveal_strlit(":read-only");
        lemma_named_text(name, "read-only"@, ":read-only"@);
    } else if eq_ignore_ascii_case(name, "read-write"@) {
        reveal_strlit("read-write");
        reveal_strlit(":read-write");
        lemma_named_text(name, "read-write"@, ":read-write"@);
    }
}

/// The name of each pseudo-class, without its colon.
pub open spec fn pseudo_class_name(v: PdfPseudoClass) -> Seq<char> {
    match v {
        PdfPseudoClass::Link => "link"@,
        PdfPseudoClass::AnyLink => "any-link"@,
        PdfPseudoClass::Visited => "visited"@,
        PdfPseudoClass::Hover => "hover"@,
        PdfPseudoClass::Active => "active"@,
        PdfPseudoClass::Focus => "focus"@,
        PdfPseudoClass::FocusWithin => "focus-within"@,
        PdfPseudoClass::FocusVisible => "focus-visible"@,
        PdfPseudoClass::Checked => "checked"@,
        PdfPseudoClass::Disabled => "disabled"@,
        PdfPseudoClass::Enabled => "enabled"@,
        PdfPseudoClass::Required => "required"@,
        PdfPseudoClass::Optional => "optional"@,
        PdfPseudoClass::ReadOnly => "read-only"@,
        PdfPseudoClass::ReadWrite => "read-write"@,
    }
}

/// Every supported pseudo-class is given for its keyword, written in any ASCII case.
pub proof fn law_pseudo_class_keyword_gives_it(name: Seq<char>, v: PdfPseudoClass)
    requires
        eq_ignore_ascii_case(name, pseudo_class_name(v)),
    ensures
        pseudo_class_named(name) == Some(v),
{
    reveal_strlit("active");
    reveal_strlit("any-link");
    reveal_strlit("checked");
    reveal_strlit("disabled");
    reveal_strlit("enabled");
    reveal_strlit("focus");
    reveal_strlit("focus-visible");
    reveal_strlit("focus-within");
    reveal_strlit("hover");
    reveal_strlit("link");
    reveal_strlit("optional");
    reveal_strlit("read-only");
    reveal_strlit("read-write");
    reveal_strlit("required");
    reveal_strlit("visited");
    match v {
        PdfPseudoClass::Link => {},
        PdfPseudoClass::AnyLink => {},
        PdfPseudoClass::Visited => {},
        PdfPseudoClass::Hover => {},
        PdfPseudoClass::Active => {},
        PdfPseudoClass::Focus => {
            assert(ascii_lower(name[0]) == ascii_lower("focus"@[0]));
        },
        PdfPseudoClass::FocusWithin => {},
        PdfPseudoClass::FocusVisible => {},
        PdfPseudoClass::Checked => {
            assert(ascii_lower(name[0]) == ascii_lower("checked"@[0]));
        },
        PdfPseudoClass::Disabled => {
            assert(ascii_lower(name[0]) == ascii_lower("disabled"@[0]));
        },
        PdfPseudoClass::Enabled => {
            assert(ascii_lower(name[0]) == ascii_lower("enabled"@[0]));
            assert(ascii_lower(name[0]) == ascii_lower("enabled"@[0]));
        },
        PdfPseudoClass::Required => {
            assert(ascii_lower(name[0]) == ascii_lower("required"@[0]));
            assert(ascii_lower(name[0]) == ascii_lower("required"@[0]));
        },
        PdfPseudoClass::Optional => {
            assert(ascii_lower(name[0]) == ascii_lower("optional"@[0]));
            assert(ascii_lower(name[0]) == ascii_lower("optional"@[0]));
            assert(ascii_lower(name[0]) == ascii_lower("optional"@[0]));
        },
        PdfPseudoClass::ReadOnly => {},
        PdfPseudoClass::ReadWrite => {},
    }
}

impl PdfPseudoClass {
    /// The pseudo-class as it is written in a selector.
    pub fn css_text(&self) -> (s: &'static str)
        ensures
            s@ == pseudo_class_text(*self),
    {
        match self {
            PdfPseudoClass::Link => ":link",
            PdfPseudoClass::AnyLink => ":any-link",
            PdfPseudoClass::Visited => ":visited",
            PdfPseudoClass::Hover => ":hover",
            PdfPseudoClass::Active => ":active",
            PdfPseudoClass::Focus => ":focus",
            PdfPseudoClass::FocusWithin => ":focus-within",
            PdfPseudoClass::FocusVisible => ":focus-visible",
            PdfPseudoClass::Checked => ":checked",
            PdfPseudoClass::Disabled => ":disabled",
            PdfPseudoClass::Enabled => ":enabled",
            PdfPseudoClass::Required => ":required",
            PdfPseudoClass::Optional => ":optional",
            PdfPseudoClass::ReadOnly => ":read-only",
            PdfPseudoClass::ReadWrite => ":read-write",
        }
    }

    /// Whether the pseudo-class is `:active` or `:hover`: never, on paper.
    pub fn is_active_or_hover(&self) -> (r: bool)
        ensures
            !r,
    {
        false
    }

    /// Whether the pseudo-class depends on what a user does: never, on paper.
    pub fn is_user_action_state(&self) -> (r: bool)
        ensures
            !r,
    {
        false
    }
}

impl PdfSelectorParser {
    /// `:nth-child(... of S)` is accepted.
    pub fn parse_nth_child_of(&self) -> (r: bool)
        ensures
            r,
    {
        true
    }

    /// `:is()` and `:where()` are accepted.
    pub fn parse_is_and_where(&self) -> (r: bool)
        ensures
            r,
    {
        true
    }

    /// `:has()` is accepted.
    pub fn parse_has(&self) -> (r: bool)
        ensures
            r,
    {
        true
    }

    /// Forgiving selector lists are not accepted.
    pub fn allow_forgiving_selectors(&self) -> (r: bool)
        ensures
            !r,
    {
        false
    }

    /// The pseudo-class that a selector names, or `None` where the name is
    /// not supported (the parser reports an error then).
    pub fn parse_non_ts_pseudo_class(&self, name: &str) -> (r: Option<PdfPseudoClass>)
        ensures
            r == pseudo_class_named(name@),
    {
        if str_eq_ignore_ascii_case(name, "link") {
            Some(PdfPseudoClass::Link)
        } else if str_eq_ignore_ascii_case(name, "any-link") {
            Some(PdfPseudoClass::AnyLink)
        } else if str_eq_ignore_ascii_case(name, "visited") {
            Some(PdfPseudoClass::Visited)
        } else if str_eq_ignore_ascii_case(name, "hover") {
            Some(PdfPseudoClass::Hover)
        } else if str_eq_ignore_ascii_case(name, "active") {
            Some(PdfPseudoClass::Active)
        } else if str_eq_ignore_ascii_case(name, "focus") {
            Some(PdfPseudoClass::Focus)
        } else if str_eq_ignore_ascii_case(name, "focus-within") {
            Some(PdfPseudoClass::FocusWithin)
        } else if str_eq_ignore_ascii_case(name, "focus-visible") {
            Some(PdfPseudoClass::FocusVisible)
        } else if str_eq_ignore_ascii_case(name, "checked") {
            Some(PdfPseudoClass::Checked)
        } else if str_eq_ignore_ascii_case(name, "disabled") {
            Some(PdfPseudoClass::Disabled)
        } else if str_eq_ignore_ascii_case(name, "enabled") {
            Some(PdfPseudoClass::Enabled)
        } else if str_eq_ignore_ascii_case(name, "required") {
            Some(PdfPseudoClass::Required)
        } else if str_eq_ignore_ascii_case(name, "optional") {
            Some(PdfPseudoClass::Optional)
        } else if str_eq_ignore_ascii_case(name, "read-only") {
            Some(PdfPseudoClass::ReadOnly)
        } else if str_eq_ignore_ascii_case(name, "read-write") {
            Some(PdfPseudoClass::ReadWrite)
        } else {
            None
        }
    }
}

/// The node that `rest` leads to from `n`, each index picking a child.
pub open spec fn walk(n: Node, rest: Seq<usize>) -> Option<Node>
    decreases rest.len(),
{
    if rest.len() == 0 {
        Some(n)
    } else {
        match n {
            Node::Element(e) => if rest[0] < e.children@.len() {
                walk(e.children@[rest[0] as int], rest.drop_first())
            } else {
                None
            },
            Node::Text(_) => None,
        }
    }
}

/// The node at `path` below the top-level nodes `children`; the empty path
/// leads nowhere.
pub open spec fn node_at(children: Seq<Node>, path: Seq<usize>) -> Option<Node> {
    if path.len() == 0 || path[0] >= children.len() {
        None
    } else {
        walk(children[path[0] as int], path.drop_first())
    }
}

/// The element at `path` in `doc`, if the node there is one.
pub open spec fn element_at(doc: Document, path: Seq<usize>) -> Option<Element> {
    match node_at(doc.children@, path) {
        Some(Node::Element(e)) => Some(e),
        _ => None,
    }
}

/// The greatest index below `k` at which `children` holds an element.
pub open spec fn last_element_before(children: Seq<Node>, k: int) -> Option<int>
    decreases k,
{
    if k <= 0 {
        None
    } else if k - 1 < children.len() && children[k - 1] is Element {
        Some(k - 1)
    } else {
        last_element_before(children, k - 1)
    }
}

/// The least index from `k` on at which `children` holds an element.
pub open spec fn first_element_from(children: Seq<Node>, k: int) -> Option<int>
    decreases children.len() - k,
{
    if k < 0 || k >= children.len() {
        None
    } else if children[k] is Element {
        Some(k)
    } else {
        first_element_from(children, k + 1)
    }
}

proof fn lemma_last_element_before_past_end(children: Seq<Node>, k: int)
    requires
        k >= children.len(),
    ensures
        last_element_before(children, k) == last_element_before(children, children.len() as int),
    decreases k,
{
    if k > children.len() {
        lemma_last_element_before_past_end(children, k - 1);
    }
}

/// The path of the element sibling before (`backwards`) or after the node
/// at `path`, where its parent is an element and such a sibling exists.
pub open spec fn sibling_path(doc: Document, path: Seq<usize>, backwards: bool) -> Option<Seq<usize>> {
    if path.len() <= 1 {
        None
    } else {
        let parent = path.drop_last();
        match node_at(doc.children@, parent) {
            Some(Node::Element(p)) => {
                let current = path.last() as int;
                let found = if backwards {
                    last_element_before(p.children@, current)
                } else {
                    first_element_from(p.children@, current + 1)
                };
                match found {
                    Some(j) => Some(parent.push(j as usize)),
                    None => None,
                }
            },
            _ => None,
        }
    }
}

/// The path of the first element child of the element at `path`.
pub open spec fn first_child_path(doc: Document, path: Seq<usize>) -> Option<Seq<usize>> {
    match element_at(doc, path) {
        Some(e) => match first_element_from(e.children@, 0) {
            Some(j) => Some(path.push(j as usize)),
            None => None,
        },
        None => None,
    }
}

/// The path of the parent element of the node at `path`.
pub open spec fn parent_element_path(doc: Document, path: Seq<usize>) -> Option<Seq<usize>> {
    if path.len() > 1 && element_at(doc, path.drop_last()) is Some {
        Some(path.drop_last())
    } else {
        None
    }
}

/// The view of an optional index vector.
pub open spec fn opt_path_view(o: Option<Vec<usize>>) -> Option<Seq<usize>> {
    match o {
        Some(v) => Some(v@),
        None => None,
    }
}

/// The greatest index below `k` holding an element.
fn last_element_index_before(children: &Vec<Node>, k: usize) -> (r: Option<usize>)
    requires
        k <= children@.len(),
    ensures
        match r {
            Some(j) => last_element_before(children@, k as int) == Some(j as int),
            None => last_element_before(children@, k as int) is None,
        },
{
    let mut i: usize = k;
    while i > 0
        invariant
            i <= k <= children@.len(),
            last_element_before(children@, k as int) == last_element_before(children@, i as int),
        decreases i,
    {
        if let Node::Element(_) = &children[i - 1] {
            return Some(i - 1);
        }
        i -= 1;
    }
    None
}

/// The least index from `k` on holding an element.
fn first_element_index_from(children: &Vec<Node>, k: usize) -> (r: Option<usize>)
    ensures
        match r {
            Some(j) => first_element_from(children@, k as int) == Some(j as int),
            None => first_element_from(children@, k as int) is None,
        },
{
    let mut i: usize = k;
    while i < children.len()
        invariant
            k <= i,
            first_element_from(children@, k as int) == first_element_from(children@, i as int),
        decreases children@.len() - i,
    {
        if let Node::Element(_) = &children[i] {
            return Some(i);
        }
        i += 1;
    }
    None
}

/// The node at `path` below `document`'s top-level nodes.
pub fn node_at_path<'a>(document: &'a Document, path: &[usize]) -> (r: Option<&'a Node>)
    ensures
        match r {
            Some(n) => node_at(document.children@, path@) == Some(*n),
            None => node_at(document.children@, path@) is None,
        },
{
    if path.len() == 0 || path[0] >= document.children.len() {
        return None;
    }
    let mut node: &'a Node = &document.children[path[0]];
    let mut i: usize = 1;
    assert(path@.drop_first() =~= path@.skip(1));
    while i < path.len()
        invariant
            1 <= i <= path@.len(),
            node_at(document.children@, path@) == walk(*node, path@.skip(i as int)),
        decreases path@.len() - i,
    {
        let index = path[i];
        assert(path@.skip(i as int).drop_first() =~= path@.skip(i + 1));
        match node {
            Node::Element(element) => {
                if index < element.children.len() {
                    node = &element.children[index];
                } else {
                    return None;
                }
            },
            Node::Text(_) => {
                return None;
            },
        }
        i += 1;
    }
    assert(path@.skip(path@.len() as int) =~= Seq::<usize>::empty());
    Some(node)
}

/// How two names are compared: exactly, or without regard to ASCII case.
#[derive(Debug, Clone, Copy, PartialEq, Eq, Structural)]
pub enum CaseSensitivity {
    CaseSensitive,
    AsciiCaseInsensitive,
}

/// Whether two names are the same under `cs`.
pub open spec fn names_match(a: Seq<char>, b: Seq<char>, cs: CaseSensitivity) -> bool {
    match cs {
        CaseSensitivity::CaseSensitive => a == b,
        CaseSensitivity::AsciiCaseInsensitive => eq_ignore_ascii_case(a, b),
    }
}

fn names_match_exec(a: &str, b: &str, cs: CaseSensitivity) -> (r: bool)
    ensures
        r == names_match(a@, b@, cs),
{
    match cs {
        CaseSensitivity::CaseSensitive => str_equal(a, b),
        CaseSensitivity::AsciiCaseInsensitive => str_eq_ignore_ascii_case(a, b),
    }
}

/// The value of the first attribute whose name matches `name` without
/// regard to ASCII case.
pub open spec fn first_attribute_value_ignoring_case(attrs: Seq<Attribute>, name: Seq<char>) -> Option<Seq<char>>
    decreases attrs.len(),
{
    if attrs.len() == 0 {
        None
    } else if eq_ignore_ascii_case(attrs[0].name@, name) {
        Some(attrs[0].value@)
    } else {
        first_attribute_value_ignoring_case(attrs.drop_first(), name)
    }
}

/// Whether the element at a position has a pseudo-class. Interactive
/// states never hold in a printed document; the others read attributes.
pub open spec fn has_pseudo_class(e: Option<Element>, pc: PdfPseudoClass) -> bool {
    match e {
        None => false,
        Some(e) => match pc {
            PdfPseudoClass::Link | PdfPseudoClass::AnyLink => first_attribute_value(e.attributes@, "href"@) is Some,
            PdfPseudoClass::Visited => false,
            PdfPseudoClass::Checked => first_attribute_value(e.attributes@, "checked"@) is Some,
            PdfPseudoClass::Disabled => first_attribute_value(e.attributes@, "disabled"@) is Some,
            PdfPseudoClass::Enabled => first_attribute_value(e.attributes@, "disabled"@) is None,
            PdfPseudoClass::Required => first_attribute_value(e.attributes@, "required"@) is Some,
            PdfPseudoClass::Optional => first_attribute_value(e.attributes@, "required"@) is None,
            PdfPseudoClass::ReadOnly => first_attribute_value(e.attributes@, "readonly"@) is Some,
            PdfPseudoClass::ReadWrite => first_attribute_value(e.attributes@, "readonly"@) is None,
            PdfPseudoClass::Hover | PdfPseudoClass::Active | PdfPseudoClass::Focus
            | PdfPseudoClass::FocusWithin | PdfPseudoClass::FocusVisible => false,
        },
    }
}

/// A position in a document that the selector engine matches against: the
/// index path from the top-level nodes down to a node.
#[derive(Debug, Clone)]
pub struct DomElement<'a> {
    pub document: &'a Document,
    pub path: Vec<usize>,
}

impl<'a> DomElement<'a> {
    /// The position `path` in `document`.
    pub fn new(document: &'a Document, path: Vec<usize>) -> (r: DomElement<'a>)
        ensures
            r.document == document,
            r.path@ == path@,
    {
        DomElement { document, path }
    }

    /// The element at this position, if the node there is one.
    pub fn element(&self) -> (r: Option<&'a Element>)
        ensures
            match r {
                Some(e) => element_at(*self.document, self.path@) == Some(*e),
                None => element_at(*self.document, self.path@) is None,
            },
    {
        match node_at_path(self.document, self.path.as_slice()) {
            Some(Node::Element(element)) => Some(element),
            _ => None,
        }
    }

    /// The path one level up, where there is a level above the top.
    pub fn parent_path(&self) -> (r: Option<Vec<usize>>)
        ensures
            opt_path_view(r) == (if self.path@.len() <= 1 {
                None
            } else {
                Some(self.path@.drop_last())
            }),
    {
        if self.path.len() <= 1 {
            None
        } else {
            let mut p: Vec<usize> = Vec::new();
            let mut i: usize = 0;
            while i < self.path.len() - 1
                invariant
                    self.path@.len() > 1,
                    i <= self.path@.len() - 1,
                    p@ == self.path@.take(i as int),
                decreases self.path@.len() - 1 - i,
            {
                p.push(self.path[i]);
                i += 1;
                assert(p@ =~= self.path@.take(i as int));
            }
            assert(p@ =~= self.path@.drop_last());
            Some(p)
        }
    }

    /// The path of the element sibling before (`direction < 0`) or after
    /// this position.
    pub fn sibling_element_path(&self, direction: i32) -> (r: Option<Vec<usize>>)
        ensures
            opt_path_view(r) == sibling_path(*self.document, self.path@, direction < 0),
    {
        let parent_path = match self.parent_path() {
            Some(p) => p,
            None => return None,
        };
        let parent = match node_at_path(self.document, parent_path.as_slice()) {
            Some(Node::Element(parent)) => parent,
            _ => return None,
        };
        let current = self.path[self.path.len() - 1];
        let n = parent.children.len();
        let ghost cs = parent.children@;
        let found: Option<usize> = if direction < 0 {
            let k: usize = if current < n { current } else { n };
            proof {
                if current >= n {
                    lemma_last_element_before_past_end(cs, current as int);
                }
            }
            last_element_index_before(&parent.children, k)
        } else if current >= n {
            None
        } else {
            first_element_index_from(&parent.children, current + 1)
        };
        match found {
            Some(j) => {
                let mut path = parent_path;
                path.push(j);
                Some(path)
            },
            None => None,
        }
    }
}

/// The first attribute of `attrs` whose name matches `name` without regard
/// to ASCII case.
pub fn find_attribute_value_ignoring_case<'a>(attrs: &'a Vec<Attribute>, name: &str) -> (r: Option<&'a str>)
    ensures
        opt_str_view(r) == first_attribute_value_ignoring_case(attrs@, name@),
{
    let mut i: usize = 0;
    assert(attrs@.skip(0) =~= attrs@);
    while i < attrs.len()
        invariant
            i <= attrs@.len(),
            first_attribute_value_ignoring_case(attrs@, name@) == first_attribute_value_ignoring_case(
                attrs@.skip(i as int),
                name@,
            ),
        decreases attrs@.len() - i,
    {
        if str_eq_ignore_ascii_case(attrs[i].name.as_str(), name) {
            return Some(attrs[i].value.as_str());
        }
        assert(attrs@.skip(i as int).drop_first() =~= attrs@.skip(i + 1));
        i += 1;
    }
    None
}

/// Whether one of `classes` matches `class` under `cs`.
pub open spec fn has_matching_class(classes: Seq<String>, class: Seq<char>, cs: CaseSensitivity) -> bool {
    exists|i: int| 0 <= i < classes.len() && names_match(#[trigger] classes[i]@, class, cs)
}

impl<'a> DomElement<'a> {
    /// The position of the first element child.
    pub fn first_element_child(&self) -> (r: Option<DomElement<'a>>)
        ensures
            match r {
                Some(d) => d.document == self.document && first_child_path(*self.document, self.path@) == Some(d.path@),
                None => first_child_path(*self.document, self.path@) is None,
            },
    {
        let element = match self.element() {
            Some(e) => e,
            None => return None,
        };
        match first_element_index_from(&element.children, 0) {
            Some(j) => {
                let mut path = self.path.clone();
                path.push(j);
                Some(DomElement::new(self.document, path))
            },
            None => None,
        }
    }

    /// The position of the parent, where it is an element.
    pub fn parent_element(&self) -> (r: Option<DomElement<'a>>)
        ensures
            match r {
                Some(d) => d.document == self.document && parent_element_path(*self.document, self.path@) == Some(d.path@),
                None => parent_element_path(*self.document, self.path@) is None,
            },
    {
        let path = match self.parent_path() {
            Some(p) => p,
            None => return None,
        };
        match node_at_path(self.document, path.as_slice()) {
            Some(Node::Element(_)) => Some(DomElement::new(self.document, path)),
            _ => None,
        }
    }

    /// The position of the previous element sibling.
    pub fn prev_sibling_element(&self) -> (r: Option<DomElement<'a>>)
        ensures
            match r {
                Some(d) => d.document == self.document && sibling_path(*self.document, self.path@, true) == Some(d.path@),
                None => sibling_path(*self.document, self.path@, true) is None,
            },
    {
        match self.sibling_element_path(-1) {
            Some(path) => Some(DomElement::new(self.document, path)),
            None => None,
        }
    }

    /// The position of the next element sibling.
    pub fn next_sibling_element(&self) -> (r: Option<DomElement<'a>>)
        ensures
            match r {
                Some(d) => d.document == self.document && sibling_path(*self.document, self.path@, false) == Some(d.path@),
                None => sibling_path(*self.document, self.path@, false) is None,
            },
    {
        match self.sibling_element_path(1) {
            Some(path) => Some(DomElement::new(self.document, path)),
            None => None,
        }
    }

    /// Whether the element here has the tag `local_name`, in any ASCII case.
    pub fn has_local_name(&self, local_name: &str) -> (r: bool)
        ensures
            r == (element_at(*self.document, self.path@) matches Some(e) && eq_ignore_ascii_case(
                e.tag_name@,
                local_name@,
            )),
    {
        match self.element() {
            Some(e) => str_eq_ignore_ascii_case(e.tag_name.as_str(), local_name),
            None => false,
        }
    }

    /// Whether both positions hold elements of the same tag, in any ASCII
    /// case.
    pub fn is_same_type(&self, other: &DomElement) -> (r: bool)
        ensures
            r == (element_at(*self.document, self.path@) matches Some(a) && element_at(
                *other.document,
                other.path@,
            ) matches Some(b) && eq_ignore_ascii_case(a.tag_name@, b.tag_name@)),
    {
        match (self.element(), other.element()) {
            (Some(a), Some(b)) => str_eq_ignore_ascii_case(a.tag_name.as_str(), b.tag_name.as_str()),
            _ => false,
        }
    }

    /// Whether the element here has the id `id` under `cs`.
    pub fn has_id(&self, id: &str, cs: CaseSensitivity) -> (r: bool)
        ensures
            r == (element_at(*self.document, self.path@) matches Some(e) && e.id matches Some(v)
                && names_match(v@, id@, cs)),
    {
        match self.element() {
            Some(e) => match &e.id {
                Some(v) => names_match_exec(v.as_str(), id, cs),
                None => false,
            },
            None => false,
        }
    }

    /// Whether the element here has the class `class` under `cs`.
    pub fn has_class(&self, class: &str, cs: CaseSensitivity) -> (r: bool)
        ensures
            r == (element_at(*self.document, self.path@) matches Some(e) && has_matching_class(
                e.classes@,
                class@,
                cs,
            )),
    {
        match self.element() {
            Some(e) => {
                let mut i: usize = 0;
                while i < e.classes.len()
                    invariant
                        element_at(*self.document, self.path@) == Some(*e),
                        i <= e.classes@.len(),
                        forall|j: int| 0 <= j < i ==> !names_match(#[trigger] e.classes@[j]@, class@, cs),
                    decreases e.classes@.len() - i,
                {
                    if names_match_exec(e.classes[i].as_str(), class, cs) {
                        assert(names_match(e.classes@[i as int]@, class@, cs));
                        return true;
                    }
                    i += 1;
                }
                false
            },
            None => false,
        }
    }

    /// The value of the element's first attribute whose name matches
    /// `name` without regard to ASCII case, which attribute selectors test.
    pub fn attribute_ignoring_case(&self, name: &str) -> (r: Option<&'a str>)
        ensures
            opt_str_view(r) == match element_at(*self.document, self.path@) {
                Some(e) => first_attribute_value_ignoring_case(e.attributes@, name@),
                None => None,
            },
    {
        match self.element() {
            Some(e) => find_attribute_value_ignoring_case(&e.attributes, name),
            None => None,
        }
    }

    /// Whether the element here has the attribute named exactly `name`.
    pub fn has_attribute(&self, name: &str) -> (r: bool)
        ensures
            r == (element_at(*self.document, self.path@) matches Some(e) && first_attribute_value(
                e.attributes@,
                name@,
            ) is Some),
    {
        match self.element() {
            Some(e) => e.attribute(name).is_some(),
            None => false,
        }
    }

    /// Whether the element here is in the state that `pc` names.
    pub fn match_non_ts_pseudo_class(&self, pc: PdfPseudoClass) -> (r: bool)
        ensures
            r == has_pseudo_class(element_at(*self.document, self.path@), pc),
    {
        if self.element().is_none() {
            return false;
        }
        match pc {
            PdfPseudoClass::Link | PdfPseudoClass::AnyLink => self.has_attribute("href"),
            PdfPseudoClass::Visited => false,
            PdfPseudoClass::Checked => self.has_attribute("checked"),
            PdfPseudoClass::Disabled => self.has_attribute("disabled"),
            PdfPseudoClass::Enabled => !self.has_attribute("disabled"),
            PdfPseudoClass::Required => self.has_attribute("required"),
            PdfPseudoClass::Optional => !self.has_attribute("required"),
            PdfPseudoClass::ReadOnly => self.has_attribute("readonly"),
            PdfPseudoClass::ReadWrite => !self.has_attribute("readonly"),
            PdfPseudoClass::Hover | PdfPseudoClass::Active | PdfPseudoClass::Focus
            | PdfPseudoClass::FocusWithin | PdfPseudoClass::FocusVisible => false,
        }
    }

    /// Whether the element here is a link: it has an `href` attribute.
    pub fn is_link(&self) -> (r: bool)
        ensures
            r == (element_at(*self.document, self.path@) matches Some(e) && first_attribute_value(
                e.attributes@,
                "href"@,
            ) is Some),
    {
        self.has_attribute("href")
    }

    /// Whether the position holds no element with children.
    pub fn is_empty(&self) -> (r: bool)
        ensures
            r == match element_at(*self.document, self.path@) {
                Some(e) => e.children@.len() == 0,
                None => true,
            },
    {
        match self.element() {
            Some(e) => e.children.len() == 0,
            None => true,
        }
    }

    /// Whether the position has no parent element.
    pub fn is_root(&self) -> (r: bool)
        ensures
            r == parent_element_path(*self.document, self.path@) is None,
    {
        self.parent_element().is_none()
    }

    /// Whether `namespace` is the (empty) namespace of every element.
    pub fn has_namespace(&self, namespace: &str) -> (r: bool)
        ensures
            r == (namespace@.len() == 0),
    {
        namespace.is_empty()
    }
}

} // verus!
