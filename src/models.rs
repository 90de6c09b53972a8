use vstd::prelude::*;

verus! {

/// The variant of a node, used to filter nodes by kind.
#[derive(Debug, Clone, Copy, PartialEq, Eq, Structural)]
pub enum NodeType {
    Product,
    User,
    Term,
}

/// The relation that a directed edge stands for.
#[allow(non_camel_case_types)]
#[derive(Debug, Clone, Copy, PartialEq, Eq, Structural)]
pub enum EdgeType {
    /// User -> Product: the user bought the product.
    BOUGHT,
    /// User -> Product: the user viewed the product.
    VIEWED,
    /// Product -> Product: both products share a category.
    RELATED_BY_CATEGORY,
    /// Product -> Product: similarity by tags (not produced by the indexer).
    RELATED_BY_TAG,
    /// Term -> Product: the product's name or tags hold the term.
    CONTAINS_TERM,
}

impl EdgeType {
    /// A user's interaction with a product.
    pub open spec fn is_interaction(self) -> bool {
        self == EdgeType::BOUGHT || self == EdgeType::VIEWED
    }

    pub fn is_interaction_exec(&self) -> (r: bool)
        ensures
            r == self.is_interaction(),
    {
        match self {
            EdgeType::BOUGHT => true,
            EdgeType::VIEWED => true,
            _ => false,
        }
    }
}

/// An item of the catalog.
#[derive(Debug, Clone, PartialEq, Eq, Hash)]
pub struct Product {
    pub id: u32,
    pub name: String,
    pub brand: String,
    pub category: String,
    pub tags: Vec<String>,
}

/// The mathematical content of a [`Product`].
pub struct ProductView {
    pub id: u32,
    pub name: Seq<char>,
    pub brand: Seq<char>,
    pub category: Seq<char>,
    pub tags: Seq<Seq<char>>,
}

impl View for Product {
    type V = ProductView;

    open spec fn view(&self) -> ProductView {
        ProductView {
            id: self.id,
            name: self.name@,
            brand: self.brand@,
            category: self.category@,
            tags: self.tags@.map_values(|t: String| t@),
        }
    }
}

impl Product {
    /// A field-by-field copy.
    pub fn duplicate(&self) -> (r: Product)
        ensures
            r@ == self@,
    {
        let mut tags: Vec<String> = Vec::new();
        let n = self.tags.len();
        for i in 0..n
            invariant
                n == self.tags@.len(),
                tags@.len() == i,
                forall|j: int| 0 <= j < i ==> #[trigger] tags@[j]@ == self.tags@[j]@,
        {
            tags.push(self.tags[i].clone());
        }
        let r = Product {
            id: self.id,
            name: self.name.clone(),
            brand: self.brand.clone(),
            category: self.category.clone(),
            tags,
        };
        assert(r.tags@.map_values(|t: String| t@) =~= self.tags@.map_values(|t: String| t@));
        r
    }
}

/// A customer.
#[derive(Debug, Clone)]
pub struct User {
    pub id: u32,
    pub name: String,
}

/// A normalised search token.
#[derive(Debug, Clone)]
pub struct Term {
    pub term: String,
}

/// The content of a node of the catalog graph.
#[derive(Debug, Clone)]
pub enum GraphNode {
    Product(Product),
    User(User),
    Term(Term),
}

impl GraphNode {
    pub open spec fn node_type(&self) -> NodeType {
        match self {
            GraphNode::Product(_) => NodeType::Product,
            GraphNode::User(_) => NodeType::User,
            GraphNode::Term(_) => NodeType::Term,
        }
    }

    /// The node is the product with this id.
    pub open spec fn is_product_with(&self, id: u32) -> bool {
        self is Product && self->Product_0.id == id
    }

    /// The node is the user with this id.
    pub open spec fn is_user_with(&self, id: u32) -> bool {
        self is User && self->User_0.id == id
    }

    /// The node is a term with this text.
    pub open spec fn is_term_with(&self, text: Seq<char>) -> bool {
        self is Term && self->Term_0.term@ == text
    }

    /// Returns the variant of the node.
    pub fn get_type(&self) -> (r: NodeType)
        ensures
            r == self.node_type(),
    {
        match self {
            GraphNode::Product(_) => NodeType::Product,
            GraphNode::User(_) => NodeType::User,
            GraphNode::Term(_) => NodeType::Term,
        }
    }
}

} // verus!
