//! Markup documents as trees of named elements.

use vstd::prelude::*;
use vstd::utf8::encode_utf8;

verus! {

/// A named value attached to an element.
#[derive(Clone, Debug)]
pub struct Attribute {
    pub name: String,
    pub value: String,
}

/// An element of a document: its name, its attributes, the elements inside
/// it, and the text inside it, if there is any.
#[derive(Debug)]
pub struct Node {
    pub name: String,
    pub attributes: Vec<Attribute>,
    pub children: Vec<Node>,
    pub text: Option<String>,
}

/// What an element says, whatever the order in which its attributes are held.
pub struct Markup {
    pub name: Seq<char>,
    pub attributes: Map<Seq<char>, Seq<char>>,
    pub children: Seq<Markup>,
    pub text: Option<Seq<char>>,
}

/// The attributes by name. Where a name occurs twice, the first one counts.
pub open spec fn attribute_map(attributes: Seq<Attribute>) -> Map<Seq<char>, Seq<char>>
    decreases attributes.len(),
{
    if attributes.len() == 0 {
        Map::empty()
    } else {
        attribute_map(attributes.drop_first()).insert(attributes[0].name@, attributes[0].value@)
    }
}

/// What `element` and everything inside it says.
pub open spec fn markup(element: Node) -> Markup
    decreases element,
{
    Markup {
        name: element.name@,
        attributes: attribute_map(element.attributes@),
        children: Seq::new(
            element.children@.len(),
            |i: int|
                if 0 <= i < element.children@.len() {
                    markup(element.children@[i])
                } else {
                    arbitrary()
                },
        ),
        text: match element.text {
            Some(text) => Some(text@),
            None => None,
        },
    }
}

impl View for Node {
    type V = Markup;

    open spec fn view(&self) -> Markup {
        markup(*self)
    }
}

/// What a node says, part by part.
pub proof fn lemma_node_view(node: Node)
    ensures
        node@.name == node.name@,
        node@.attributes == attribute_map(node.attributes@),
        node@.text == match node.text {
            Some(text) => Some(text@),
            None => None,
        },
        node@.children.len() == node.children@.len(),
        forall|i: int|
            0 <= i < node.children@.len() ==> node@.children[i] == (#[trigger] node.children@[i])@,
{
}

/// The first of `children` that is called `name`, if there is one.
pub open spec fn first_child(children: Seq<Markup>, name: Seq<char>) -> Option<Markup>
    decreases children.len(),
{
    if children.len() == 0 {
        None
    } else if children[0].name == name {
        Some(children[0])
    } else {
        first_child(children.drop_first(), name)
    }
}

/// Where no child has the name, there is no first child of that name.
pub proof fn lemma_no_child(children: Seq<Markup>, name: Seq<char>)
    requires
        forall|i: int| 0 <= i < children.len() ==> children[i].name != name,
    ensures
        first_child(children, name) is None,
    decreases children.len(),
{
    if children.len() > 0 {
        lemma_no_child(children.drop_first(), name);
    }
}

/// A child of the name with none of that name before it is the first.
pub proof fn lemma_child_at(children: Seq<Markup>, name: Seq<char>, index: int)
    requires
        0 <= index < children.len(),
        children[index].name == name,
        forall|i: int| 0 <= i < index ==> children[i].name != name,
    ensures
        first_child(children, name) == Some(children[index]),
    decreases index,
{
    if index > 0 {
        lemma_child_at(children.drop_first(), name, index - 1);
    }
}

/// Where no attribute has the name, the name is not among the attributes.
pub proof fn lemma_no_attribute(attributes: Seq<Attribute>, name: Seq<char>)
    requires
        forall|i: int| 0 <= i < attributes.len() ==> attributes[i].name@ != name,
    ensures
        !attribute_map(attributes).dom().contains(name),
    decreases attributes.len(),
{
    if attributes.len() > 0 {
        lemma_no_attribute(attributes.drop_first(), name);
    }
}

/// An attribute of the name with none of that name before it gives the value.
pub proof fn lemma_attribute_at(attributes: Seq<Attribute>, name: Seq<char>, index: int)
    requires
        0 <= index < attributes.len(),
        attributes[index].name@ == name,
        forall|i: int| 0 <= i < index ==> attributes[i].name@ != name,
    ensures
        attribute_map(attributes).dom().contains(name),
        attribute_map(attributes)[name] == attributes[index].value@,
    decreases index,
{
    if index > 0 {
        lemma_attribute_at(attributes.drop_first(), name, index - 1);
    }
}

/// Whether two strings hold the same characters.
pub fn str_equal(left: &str, right: &str) -> (equal: bool)
    ensures
        equal == (left@ == right@),
{
    broadcast use {vstd::utf8::encode_utf8_decode_utf8, vstd::utf8::encode_utf8_valid_utf8};

    let a: &[u8] = left.as_bytes();
    let b: &[u8] = right.as_bytes();
    if a.len() != b.len() {
        return false;
    }
    let mut i: usize = 0;
    while i < a.len()
        invariant
            i <= a.len(),
            a.len() == b.len(),
            a@ == encode_utf8(left@),
            b@ == encode_utf8(right@),
            forall|k: int| 0 <= k < i ==> a@[k] == b@[k],
        decreases a.len() - i,
    {
        if a[i] != b[i] {
            return false;
        }
        i += 1;
    }
    assert(a@ =~= b@);
    assert(vstd::utf8::decode_utf8(encode_utf8(left@)) == left@);
    assert(vstd::utf8::decode_utf8(encode_utf8(right@)) == right@);
    true
}

impl Node {
    /// The value of the attribute called `name`.
    pub fn attribute(&self, name: &str) -> (value: Option<&String>)
        ensures
            value is Some <==> self@.attributes.dom().contains(name@),
            value matches Some(text) ==> text@ == self@.attributes[name@],
    {
        let mut i: usize = 0;
        while i < self.attributes.len()
            invariant
                i <= self.attributes.len(),
                forall|k: int| 0 <= k < i ==> self.attributes@[k].name@ != name@,
            decreases self.attributes.len() - i,
        {
            if str_equal(self.attributes[i].name.as_str(), name) {
                proof {
                    lemma_attribute_at(self.attributes@, name@, i as int);
                }
                return Some(&self.attributes[i].value);
            }
            i += 1;
        }
        proof {
            lemma_no_attribute(self.attributes@, name@);
        }
        None
    }

    /// The first element inside this one that is called `name`.
    pub fn child(&self, name: &str) -> (child: Option<&Node>)
        ensures
            child matches Some(element) ==> first_child(self@.children, name@) == Some(element@),
            child is None ==> first_child(self@.children, name@) is None,
    {
        proof {
            lemma_node_view(*self);
        }
        let mut i: usize = 0;
        while i < self.children.len()
            invariant
                i <= self.children.len(),
                self@.children.len() == self.children@.len(),
                forall|k: int|
                    0 <= k < self.children@.len() ==> self@.children[k] == (
                    #[trigger] self.children@[k])@,
                forall|k: int| 0 <= k < i ==> self@.children[k].name != name@,
            decreases self.children.len() - i,
        {
            proof {
                lemma_node_view(self.children@[i as int]);
            }
            if str_equal(self.children[i].name.as_str(), name) {
                proof {
                    lemma_child_at(self@.children, name@, i as int);
                }
                return Some(&self.children[i]);
            }
            i += 1;
        }
        proof {
            lemma_no_child(self@.children, name@);
        }
        None
    }
}

} // verus!
