//! A small builder-style API for composing HTML text directly, without
//! going through the template grammar: an element accumulates attribute
//! text and body text and serializes itself on demand.

use vstd::prelude::*;
use vstd::string::StringExecFns;

verus! {

/// The state of a builder element: its tag, its accumulated attribute
/// text, and its accumulated body text.
pub struct ElementModel {
    pub tag: Seq<char>,
    pub attr: Seq<char>,
    pub content: Seq<char>,
}

/// Anything that serializes itself to HTML text.
pub trait ToHTML {
    /// The HTML text this value stands for.
    spec fn html(&self) -> Seq<char>;

    /// Serialize to HTML text.
    fn render(&self) -> (r: String)
        ensures
            r@ == self.html(),
    ;
}

impl ToHTML for &str {
    open spec fn html(&self) -> Seq<char> {
        self@
    }

    fn render(&self) -> (r: String) {
        (*self).to_owned()
    }
}

impl ToHTML for String {
    open spec fn html(&self) -> Seq<char> {
        self@
    }

    fn render(&self) -> (r: String) {
        self.clone()
    }
}

/// Growing an element: attributes and content only accumulate, in call
/// order, and never merge.
pub trait BuildElement: Sized {
    /// The element state this builder has reached.
    spec fn build_model(&self) -> ElementModel;

    /// Append the attribute text ` attribute="value"`.
    fn add_key_val(self, attribute: &str, value: &str) -> (r: Self)
        ensures
            r.build_model().tag == self.build_model().tag,
            r.build_model().content == self.build_model().content,
            r.build_model().attr == self.build_model().attr + " "@ + attribute@ + "=\""@ + value@
                + "\""@,
    ;

    /// Append the bare attribute text ` value`.
    fn add_value(self, value: &str) -> (r: Self)
        ensures
            r.build_model().tag == self.build_model().tag,
            r.build_model().content == self.build_model().content,
            r.build_model().attr == self.build_model().attr + " "@ + value@,
    ;

    /// Append a child's serialization to the body text.
    fn add_content<C: ToHTML>(self, child: C) -> (r: Self)
        ensures
            r.build_model().tag == self.build_model().tag,
            r.build_model().attr == self.build_model().attr,
            r.build_model().content == self.build_model().content + child.html(),
    ;
}

/// A builder element: a tag with accumulated attribute and body text.
pub struct Element {
    pub tag: String,
    pub attr: String,
    pub content: String,
}

impl Element {
    /// A bare element with the given tag and nothing else.
    pub fn new(tag: &str) -> (r: Self)
        ensures
            r.tag@ == tag@,
            r.attr@ == Seq::<char>::empty(),
            r.content@ == Seq::<char>::empty(),
    {
        Element { tag: tag.to_owned(), attr: String::new(), content: String::new() }
    }
}

impl ToHTML for Element {
    open spec fn html(&self) -> Seq<char> {
        if self.content@.len() > 0 {
            "<"@ + self.tag@ + self.attr@ + ">"@ + self.content@ + "</"@ + self.tag@ + ">"@
        } else {
            "<"@ + self.tag@ + self.attr@ + "/>"@
        }
    }

    fn render(&self) -> (r: String) {
        if self.content.as_str().is_empty() {
            let mut out = String::from_str("<");
            out.append(self.tag.as_str());
            out.append(self.attr.as_str());
            out.append("/>");
            out
        } else {
            let mut out = String::from_str("<");
            out.append(self.tag.as_str());
            out.append(self.attr.as_str());
            out.append(">");
            out.append(self.content.as_str());
            out.append("</");
            out.append(self.tag.as_str());
            out.append(">");
            out
        }
    }
}

impl BuildElement for Element {
    open spec fn build_model(&self) -> ElementModel {
        ElementModel { tag: self.tag@, attr: self.attr@, content: self.content@ }
    }

    fn add_key_val(self, attribute: &str, value: &str) -> (r: Self) {
        let mut attr = self.attr;
        attr.append(" ");
        attr.append(attribute);
        attr.append("=\"");
        attr.append(value);
        attr.append("\"");
        Element { tag: self.tag, attr, content: self.content }
    }

    fn add_value(self, value: &str) -> (r: Self) {
        let mut attr = self.attr;
        attr.append(" ");
        attr.append(value);
        Element { tag: self.tag, attr, content: self.content }
    }

    fn add_content<C: ToHTML>(self, child: C) -> (r: Self) {
        let mut content = self.content;
        let rendered = child.render();
        content.append(rendered.as_str());
        Element { tag: self.tag, attr: self.attr, content }
    }
}

} // verus!
