//! The element record: one node per opened tag, with identity, hierarchy
//! links, attributes, inner text and indentation metadata.

use vstd::prelude::*;
use crate::attrs::AttrMap;

verus! {

/// The mathematical content of a [`Node`].
#[verifier::ext_equal]
pub ghost struct NodeView {
    pub name: Seq<char>,
    pub root: bool,
    pub leaf: bool,
    pub child: Seq<int>,
    pub parent: Option<int>,
    pub attribute: Map<Seq<char>, Seq<char>>,
    pub inner_element: Seq<char>,
    pub indentation: int,
    pub id: int,
}

/// One parsed element.
pub struct Node {
    pub name: String,
    pub root: bool,
    pub leaf: bool,
    pub child: Vec<usize>,
    pub parent: Option<usize>,
    pub attribute: AttrMap,
    pub inner_element: String,
    pub indentation: usize,
    pub id: usize,
}

impl View for Node {
    type V = NodeView;

    open spec fn view(&self) -> NodeView {
        NodeView {
            name: self.name@,
            root: self.root,
            leaf: self.leaf,
            child: self.child@.map_values(|c: usize| c as int),
            parent: match self.parent {
                Some(p) => Some(p as int),
                None => None,
            },
            attribute: self.attribute@,
            inner_element: self.inner_element@,
            indentation: self.indentation as int,
            id: self.id as int,
        }
    }
}

impl Node {
    /// Creates a fresh record with no parent and no children; a missing inner
    /// text or indentation defaults to empty and zero.
    pub fn new(
        name: String,
        root: bool,
        leaf: bool,
        attribute: AttrMap,
        inner_element: Option<String>,
        indentation: Option<usize>,
        id: usize,
    ) -> (r: Node)
        ensures
            r.name == name,
            r.root == root,
            r.leaf == leaf,
            r.child@ =~= Seq::<usize>::empty(),
            r.parent is None,
            r.attribute == attribute,
            r.inner_element@ == match inner_element {
                Some(s) => s@,
                None => Seq::<char>::empty(),
            },
            r.indentation == match indentation {
                Some(n) => n,
                None => 0usize,
            },
            r.id == id,
    {
        let inner: String = match inner_element {
            Some(s) => s,
            None => String::new(),
        };
        let ind: usize = match indentation {
            Some(n) => n,
            None => 0,
        };
        Node {
            name,
            root,
            leaf,
            child: Vec::new(),
            parent: None,
            attribute,
            inner_element: inner,
            indentation: ind,
            id,
        }
    }

    /// Replaces the inner text.
    pub fn set_inner_element(&mut self, inner_element: String)
        ensures
            *final(self) == (Node { inner_element, ..*old(self) }),
    {
        self.inner_element = inner_element;
    }

    /// The inner text.
    pub fn get_inner_element(&self) -> (r: &String)
        ensures
            r == self.inner_element,
    {
        &self.inner_element
    }

    /// The value bound to attribute `k`, or an error message naming `k` when
    /// the element has no such attribute.
    pub fn get_attribute_value(&self, k: &str) -> (r: Result<String, String>)
        ensures
            match r {
                Ok(v) => self.attribute@.contains_key(k@) && v@ == self.attribute@[k@],
                Err(m) => !self.attribute@.contains_key(k@) && m@ == "No such key: "@ + k@
                    + " present"@,
            },
    {
        match self.attribute.get(k) {
            Some(v) => Ok(v.clone()),
            None => {
                let msg = String::from_str("No such key: ").concat(k).concat(" present");
                Err(msg)
            },
        }
    }

    /// A copy of the whole attribute mapping.
    pub fn get_all_attributes(&self) -> (r: AttrMap)
        ensures
            r@ == self.attribute@,
            self.attribute.wf() ==> r.wf(),
    {
        self.attribute.duplicate()
    }

    /// Appends a child id.
    pub fn set_child(&mut self, child_id: usize)
        ensures
            final(self).child@ == old(self).child@.push(child_id),
            *final(self) == (Node { child: final(self).child, ..*old(self) }),
    {
        self.child.push(child_id);
    }

    /// The child ids, in emission order.
    pub fn get_child(&self) -> (r: &Vec<usize>)
        ensures
            r == self.child,
    {
        &self.child
    }

    /// Sets the parent id.
    pub fn set_parent(&mut self, parent_id: usize)
        ensures
            *final(self) == (Node { parent: Some(parent_id), ..*old(self) }),
    {
        self.parent = Some(parent_id);
    }

    /// The parent id, if the element has one.
    pub fn get_parent(&self) -> (r: Option<usize>)
        ensures
            r == self.parent,
    {
        self.parent
    }

    /// The tag name.
    pub fn get_name(&self) -> (r: &String)
        ensures
            r == self.name,
    {
        &self.name
    }

    /// Whether the element opened with no enclosing open tag.
    pub fn is_root(&self) -> (r: bool)
        ensures
            r == self.root,
    {
        self.root
    }

    /// Whether the element is marked as a leaf.
    pub fn is_leaf(&self) -> (r: bool)
        ensures
            r == self.leaf,
    {
        self.leaf
    }

    /// The count of leading spaces before the opening `<`.
    pub fn get_indentation(&self) -> (r: usize)
        ensures
            r == self.indentation,
    {
        self.indentation
    }

    /// Overrides the indentation.
    pub fn set_indentation(&mut self, amount: usize)
        ensures
            *final(self) == (Node { indentation: amount, ..*old(self) }),
    {
        self.indentation = amount;
    }

    /// The element id.
    pub fn get_id(&self) -> (r: usize)
        ensures
            r == self.id,
    {
        self.id
    }

    /// Overrides the element id.
    pub fn set_id(&mut self, new_id: usize)
        ensures
            *final(self) == (Node { id: new_id, ..*old(self) }),
    {
        self.id = new_id;
    }
}

} // verus!
