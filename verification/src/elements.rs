//! Builder traits for growing an element piecewise: adding one attribute
//! or one child at a time, always by appending.

use vstd::prelude::*;
use vstd::string::StringExecFns;
use crate::element::{BuildElement, Element, ToHTML};

verus! {

/// Adding one named attribute. Repeating a name appends again: attributes
/// are an ordered, append-only sequence, never merged.
pub trait AddAttribute: BuildElement {
    /// Append the attribute text ` attribute="value"`.
    fn add_attribute(self, attribute: &str, value: &str) -> (r: Self)
        ensures
            r.build_model().tag == self.build_model().tag,
            r.build_model().content == self.build_model().content,
            r.build_model().attr == self.build_model().attr + " "@ + attribute@ + "=\""@ + value@
                + "\""@,
    ;
}

/// Adding one child to the body.
pub trait AddContent: BuildElement {
    /// Append a child's serialization to the body text.
    fn append_content<C: ToHTML>(self, child: C) -> (r: Self)
        ensures
            r.build_model().tag == self.build_model().tag,
            r.build_model().attr == self.build_model().attr,
            r.build_model().content == self.build_model().content + child.html(),
    ;
}

impl AddAttribute for Element {
    fn add_attribute(self, attribute: &str, value: &str) -> (r: Self) {
        let mut attr = self.attr;
        attr.append(" ");
        attr.append(attribute);
        attr.append("=\"");
        attr.append(value);
        attr.append("\"");
        Element { tag: self.tag, attr, content: self.content }
    }
}

impl AddContent for Element {
    fn append_content<C: ToHTML>(self, child: C) -> (r: Self) {
        let mut content = self.content;
        let rendered = child.render();
        content.append(rendered.as_str());
        Element { tag: self.tag, attr: self.attr, content }
    }
}

} // verus!
