//! Asset classification: the pure part of bundling a site's assets. A file
//! is classified by its extension into a category; each category has a
//! destination directory under the generated site, and script and
//! stylesheet assets get a ready-made reference tag for a page's head.
//! Copying the files is the embedding program's work; it takes the paths
//! and tags computed here.

use vstd::prelude::*;
use vstd::string::{StringExecFns, StrSliceExecFns};

verus! {

/// What kind of asset a file is, by extension.
#[derive(Clone, Copy, Debug, PartialEq, Eq, Structural)]
pub enum AssetCategory {
    Script,
    Stylesheet,
    Document,
    VectorImage,
    RasterImage,
    Audio,
}

/// The category an extension falls in, if any.
pub open spec fn spec_asset_category(ext: Seq<char>) -> Option<AssetCategory> {
    if ext == "js"@ {
        Some(AssetCategory::Script)
    } else if ext == "css"@ {
        Some(AssetCategory::Stylesheet)
    } else if ext == "pdf"@ {
        Some(AssetCategory::Document)
    } else if ext == "svg"@ {
        Some(AssetCategory::VectorImage)
    } else if ext == "jpg"@ || ext == "jpeg"@ || ext == "png"@ {
        Some(AssetCategory::RasterImage)
    } else if ext == "mp3"@ || ext == "ogg"@ || ext == "flac"@ || ext == "wav"@ {
        Some(AssetCategory::Audio)
    } else {
        None
    }
}

/// The directory a category's files are copied into.
pub open spec fn spec_category_directory(category: AssetCategory) -> Seq<char> {
    match category {
        AssetCategory::Script => "./public/assets/js"@,
        AssetCategory::Stylesheet => "./public/assets/css"@,
        AssetCategory::Document => "./public/assets/docs"@,
        AssetCategory::VectorImage => "./public/assets/vector"@,
        AssetCategory::RasterImage => "./public/assets/img"@,
        AssetCategory::Audio => "./public/assets/sounds"@,
    }
}

/// The path a page refers to a category's files by: the destination
/// directory as seen from inside the generated site.
pub open spec fn spec_category_href_prefix(category: AssetCategory) -> Seq<char> {
    match category {
        AssetCategory::Script => "assets/js/"@,
        AssetCategory::Stylesheet => "assets/css/"@,
        AssetCategory::Document => "assets/docs/"@,
        AssetCategory::VectorImage => "assets/vector/"@,
        AssetCategory::RasterImage => "assets/img/"@,
        AssetCategory::Audio => "assets/sounds/"@,
    }
}

/// The reference tag a page includes an asset by: a script tag or a
/// stylesheet link; other categories are copied without a tag.
pub open spec fn spec_reference_tag(category: AssetCategory, href: Seq<char>) -> Option<
    Seq<char>,
> {
    match category {
        AssetCategory::Script => Some("<script src=\""@ + href + "\"/>"@),
        AssetCategory::Stylesheet => Some(
            "<link rel=\"stylesheet\" type=\"text/css\" href=\""@ + href + "\">"@,
        ),
        _ => None,
    }
}

/// The index of the last dot in the text, or -1 if there is none.
pub open spec fn last_dot(s: Seq<char>) -> int
    decreases s.len(),
{
    if s.len() == 0 {
        -1
    } else if s.last() == '.' {
        s.len() - 1
    } else {
        last_dot(s.drop_last())
    }
}

/// A file name's extension: what follows its last dot, or the whole name
/// if it has no dot.
pub open spec fn spec_extension(name: Seq<char>) -> Seq<char> {
    if last_dot(name) == -1 {
        name
    } else {
        name.subrange(last_dot(name) + 1, name.len() as int)
    }
}

proof fn lemma_last_dot_bounds(s: Seq<char>)
    ensures
        -1 <= last_dot(s) < s.len(),
    decreases s.len(),
{
    if s.len() > 0 && s.last() != '.' {
        lemma_last_dot_bounds(s.drop_last());
    }
}

/// `last_dot` is the greatest index holding a dot.
proof fn lemma_last_dot_at(s: Seq<char>, i: int)
    requires
        0 <= i < s.len(),
        s[i] == '.',
        forall|k: int| i < k < s.len() ==> s[k] != '.',
    ensures
        last_dot(s) == i,
    decreases s.len(),
{
    if i < s.len() - 1 {
        assert(s.drop_last()[i] == s[i]);
        lemma_last_dot_at(s.drop_last(), i);
    }
}

/// A text without dots has no last dot.
proof fn lemma_last_dot_none(s: Seq<char>)
    requires
        forall|k: int| 0 <= k < s.len() ==> s[k] != '.',
    ensures
        last_dot(s) == -1,
    decreases s.len(),
{
    if s.len() > 0 {
        lemma_last_dot_none(s.drop_last());
    }
}

/// Two texts are the same exactly when they have the same characters.
fn str_eq(a: &str, b: &str) -> (r: bool)
    ensures
        r == (a@ == b@),
{
    let an = a.unicode_len();
    let bn = b.unicode_len();
    if an != bn {
        return false;
    }
    let mut i: usize = 0;
    while i < an
        invariant
            an == a@.len(),
            bn == b@.len(),
            an == bn,
            i <= an,
            forall|k: int| 0 <= k < i ==> a@[k] == b@[k],
        decreases an - i,
    {
        if a.get_char(i) != b.get_char(i) {
            return false;
        }
        i = i + 1;
    }
    proof {
        assert(a@ =~= b@);
    }
    true
}

/// A file name's extension: what follows its last dot, or the whole name
/// if it has no dot.
pub fn asset_extension(file_name: &str) -> (r: String)
    ensures
        r@ == spec_extension(file_name@),
{
    let n = file_name.unicode_len();
    let mut i = n;
    while i > 0
        invariant
            n == file_name@.len(),
            i <= n,
            forall|k: int| i <= k < n ==> file_name@[k] != '.',
        decreases i,
    {
        i = i - 1;
        if file_name.get_char(i) == '.' {
            proof {
                lemma_last_dot_at(file_name@, i as int);
            }
            return file_name.substring_char(i + 1, n).to_owned();
        }
    }
    proof {
        lemma_last_dot_none(file_name@);
        assert(file_name@.subrange(0, n as int) =~= file_name@);
    }
    file_name.substring_char(0, n).to_owned()
}

/// The category an extension falls in, if any.
pub fn asset_category(extension: &str) -> (r: Option<AssetCategory>)
    ensures
        r == spec_asset_category(extension@),
{
    if str_eq(extension, "js") {
        Some(AssetCategory::Script)
    } else if str_eq(extension, "css") {
        Some(AssetCategory::Stylesheet)
    } else if str_eq(extension, "pdf") {
        Some(AssetCategory::Document)
    } else if str_eq(extension, "svg") {
        Some(AssetCategory::VectorImage)
    } else if str_eq(extension, "jpg") || str_eq(extension, "jpeg") || str_eq(extension, "png") {
        Some(AssetCategory::RasterImage)
    } else if str_eq(extension, "mp3") || str_eq(extension, "ogg") || str_eq(extension, "flac")
        || str_eq(extension, "wav") {
        Some(AssetCategory::Audio)
    } else {
        None
    }
}

/// The directory a category's files are copied into.
pub fn category_directory(category: AssetCategory) -> (r: String)
    ensures
        r@ == spec_category_directory(category),
{
    match category {
        AssetCategory::Script => String::from_str("./public/assets/js"),
        AssetCategory::Stylesheet => String::from_str("./public/assets/css"),
        AssetCategory::Document => String::from_str("./public/assets/docs"),
        AssetCategory::VectorImage => String::from_str("./public/assets/vector"),
        AssetCategory::RasterImage => String::from_str("./public/assets/img"),
        AssetCategory::Audio => String::from_str("./public/assets/sounds"),
    }
}

/// Where one asset file goes and how pages refer to it.
pub struct AssetPlan {
    /// The category its extension put it in.
    pub category: AssetCategory,
    /// The directory to create and copy it into.
    pub destination_dir: String,
    /// The full destination path of the copy.
    pub destination: String,
    /// The tag a page includes it by, for script and stylesheet assets.
    pub reference_tag: Option<String>,
}

/// Classify one asset file by its name. A file whose extension belongs to
/// no category has no plan and is skipped.
pub fn plan_asset(file_name: &str) -> (r: Option<AssetPlan>)
    ensures
        match r {
            None => spec_asset_category(spec_extension(file_name@)) is None,
            Some(plan) => {
                &&& spec_asset_category(spec_extension(file_name@)) == Some(plan.category)
                &&& plan.destination_dir@ == spec_category_directory(plan.category)
                &&& plan.destination@ == spec_category_directory(plan.category) + "/"@
                    + file_name@
                &&& match plan.reference_tag {
                    Some(tag) => spec_reference_tag(
                        plan.category,
                        spec_category_href_prefix(plan.category) + file_name@,
                    ) == Some(tag@),
                    None => spec_reference_tag(
                        plan.category,
                        spec_category_href_prefix(plan.category) + file_name@,
                    ) is None,
                }
            },
        },
{
    let extension = asset_extension(file_name);
    let category = match asset_category(extension.as_str()) {
        Some(c) => c,
        None => {
            return None;
        },
    };
    let destination_dir = category_directory(category);
    let mut destination = destination_dir.clone();
    destination.append("/");
    destination.append(file_name);
    let reference_tag = match category {
        AssetCategory::Script => {
            let mut tag = String::from_str("<script src=\"");
            tag.append("assets/js/");
            tag.append(file_name);
            tag.append("\"/>");
            Some(tag)
        },
        AssetCategory::Stylesheet => {
            let mut tag = String::from_str("<link rel=\"stylesheet\" type=\"text/css\" href=\"");
            tag.append("assets/css/");
            tag.append(file_name);
            tag.append("\">");
            Some(tag)
        },
        _ => None,
    };
    Some(AssetPlan { category, destination_dir, destination, reference_tag })
}

} // verus!
