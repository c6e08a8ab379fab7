//! Configuration visiting support: the path context a schema walk carries,
//! and the field classes that rendering a configuration may elide.

use vstd::prelude::*;

verus! {

/// The path of the field a configuration walk currently stands at.
#[derive(Debug, Clone, PartialEq)]
pub struct VisitorContext {
    pub path: Vec<String>,
}

impl VisitorContext {
    /// A context standing at the document root.
    pub fn new() -> (r: Self)
        ensures
            r.path@.len() == 0,
    {
        VisitorContext { path: Vec::new() }
    }

    /// Steps into a field.
    pub fn push(&mut self, field: String)
        ensures
            final (self).path@ == old(self).path@.push(field),
    {
        self.path.push(field);
    }

    /// Steps back out of the innermost field; at the root this is a no-op.
    pub fn pop(&mut self)
        ensures
            final (self).path@ == if old(self).path@.len() > 0 {
                old(self).path@.drop_last()
            } else {
                old(self).path@
            },
    {
        if self.path.len() > 0 {
            let _ = self.path.pop();
        }
    }

    /// The current path, outermost field first.
    pub fn path(&self) -> (r: &Vec<String>)
        ensures
            r == self.path,
    {
        &self.path
    }
}

/// How visible a configuration field is when the configuration is rendered.
#[derive(Debug, Clone, Copy, PartialEq, Eq, Structural)]
pub enum ConfigField {
    /// Rendered always.
    Common,
    /// Rendered only in detailed mode; may be very large.
    Detail,
    /// Rendered only in sensitive mode; may hold secrets.
    Sensitive,
}

/// Which field classes a rendering includes.
#[derive(Debug, Clone, PartialEq)]
pub struct FieldSelection {
    pub fields: Vec<ConfigField>,
}

/// The selection holds the given class.
pub open spec fn spec_selected(fields: Seq<ConfigField>, f: ConfigField) -> bool {
    exists|i: int| 0 <= i < fields.len() && fields[i] == f
}

impl FieldSelection {
    /// The default rendering: common fields only.
    pub fn new() -> (r: Self)
        ensures
            r.fields@.len() == 1,
            r.fields@[0] == ConfigField::Common,
    {
        let mut fields = Vec::new();
        fields.push(ConfigField::Common);
        FieldSelection { fields }
    }

    /// A rendering with every field class, eliding nothing.
    pub fn all() -> (r: Self)
        ensures
            spec_selected(r.fields@, ConfigField::Common),
            spec_selected(r.fields@, ConfigField::Detail),
            spec_selected(r.fields@, ConfigField::Sensitive),
    {
        let mut fields = Vec::new();
        fields.push(ConfigField::Common);
        fields.push(ConfigField::Detail);
        fields.push(ConfigField::Sensitive);
        let r = FieldSelection { fields };
        proof {
            assert(r.fields@[0] == ConfigField::Common);
            assert(r.fields@[1] == ConfigField::Detail);
            assert(r.fields@[2] == ConfigField::Sensitive);
        }
        r
    }

    /// Whether the selection holds the given class.
    fn selected(&self, f: ConfigField) -> (r: bool)
        ensures
            r == spec_selected(self.fields@, f),
    {
        let mut i: usize = 0;
        while i < self.fields.len()
            invariant
                0 <= i <= self.fields@.len(),
                forall|j: int| 0 <= j < i ==> self.fields@[j] != f,
            decreases self.fields@.len() - i,
        {
            if self.fields[i] == f {
                return true;
            }
            i += 1;
        }
        false
    }

    /// Whether a detail-class field is elided under this selection.
    pub fn detailed_field(&self) -> (r: bool)
        ensures
            r == !spec_selected(self.fields@, ConfigField::Detail),
    {
        !self.selected(ConfigField::Detail)
    }

    /// Whether a sensitive-class field is elided under this selection.
    pub fn sensitive_field(&self) -> (r: bool)
        ensures
            r == !spec_selected(self.fields@, ConfigField::Sensitive),
    {
        !self.selected(ConfigField::Sensitive)
    }
}

} // verus!
