use crate::encoding::label::Label;
use vstd::prelude::*;

verus! {

/// The four fixed categories of schema types, in the order of their tags.
#[derive(Clone, Copy, Debug, PartialEq, Eq, Structural, PartialOrd, Ord, Hash)]
pub enum Kind {
    Entity,
    Relation,
    Role,
    Attribute,
}

impl Kind {
    /// The tag byte that opens the key of every vertex of this kind.
    pub open spec fn spec_tag(self) -> u8 {
        match self {
            Kind::Entity => 20,
            Kind::Relation => 21,
            Kind::Role => 22,
            Kind::Attribute => 23,
        }
    }

    /// The kind a vertex tag byte stands for, if it stands for one.
    pub open spec fn spec_from_tag(tag: u8) -> Option<Kind> {
        if tag == 20 {
            Some(Kind::Entity)
        } else if tag == 21 {
            Some(Kind::Relation)
        } else if tag == 22 {
            Some(Kind::Role)
        } else if tag == 23 {
            Some(Kind::Attribute)
        } else {
            None
        }
    }

    pub fn tag(self) -> (t: u8)
        ensures
            t == self.spec_tag(),
    {
        match self {
            Kind::Entity => 20,
            Kind::Relation => 21,
            Kind::Role => 22,
            Kind::Attribute => 23,
        }
    }

    pub fn from_tag(tag: u8) -> (kind: Option<Kind>)
        ensures
            kind == Kind::spec_from_tag(tag),
    {
        if tag == 20 {
            Some(Kind::Entity)
        } else if tag == 21 {
            Some(Kind::Relation)
        } else if tag == 22 {
            Some(Kind::Role)
        } else if tag == 23 {
            Some(Kind::Attribute)
        } else {
            None
        }
    }

    /// The label of the root type of the kind.
    pub open spec fn spec_root_label(self) -> Seq<char> {
        match self {
            Kind::Entity => "entity"@,
            Kind::Relation => "relation"@,
            Kind::Role => "relation:role"@,
            Kind::Attribute => "attribute"@,
        }
    }

    /// The label of the root type of the kind.
    pub fn root_label(self) -> (label: Label)
        ensures
            label@ == self.spec_root_label(),
    {
        match self {
            Kind::Entity => Label::build("entity"),
            Kind::Relation => Label::build("relation"),
            Kind::Role => Label::build("relation:role"),
            Kind::Attribute => Label::build("attribute"),
        }
    }

    /// The root types of two different kinds have different labels.
    pub proof fn lemma_root_labels_differ(self, other: Kind)
        requires
            self != other,
        ensures
            self.spec_root_label() != other.spec_root_label(),
    {
        reveal_strlit("entity");
        reveal_strlit("relation");
        reveal_strlit("relation:role");
        reveal_strlit("attribute");
        let a = self.spec_root_label();
        let b = other.spec_root_label();
        if a.len() == b.len() {
            assert(a[0] != b[0]);
        }
    }

    /// Tags and kinds correspond one to one.
    pub proof fn lemma_tag_round_trip(self)
        ensures
            Kind::spec_from_tag(self.spec_tag()) == Some(self),
    {
    }

    /// A byte that decodes to a kind is that kind's tag.
    pub proof fn lemma_from_tag_round_trip(tag: u8)
        ensures
            Kind::spec_from_tag(tag) matches Some(kind) ==> kind.spec_tag() == tag,
    {
    }
}

} // verus!
