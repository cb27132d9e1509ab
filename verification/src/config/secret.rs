//! Credentials, and the templates that they are written as.

use crate::values::Duplicate;
use vstd::prelude::*;
use vstd::string::*;

verus! {

/// A Handlebars template over the secrets.
#[derive(Debug)]
pub struct Template(pub String);

impl View for Template {
    type V = Seq<char>;

    open spec fn view(&self) -> Seq<char> {
        self.0@
    }
}

impl Duplicate for Template {
    fn duplicate(&self) -> (r: Template) {
        Template(self.0.clone())
    }
}

/// A credential. It is used where it is injected; wherever it would be
/// shown, [`Secret::redacted`] stands in its place.
pub struct Secret(pub String);

impl View for Secret {
    type V = Seq<char>;

    open spec fn view(&self) -> Seq<char> {
        self.0@
    }
}

impl Duplicate for Secret {
    fn duplicate(&self) -> (r: Secret) {
        Secret(self.0.clone())
    }
}

impl Secret {
    /// How every credential is shown, whatever it is.
    pub fn redacted(&self) -> (r: String)
        ensures
            r@ == "***"@,
    {
        "***".to_owned()
    }
}

} // verus!
