//! Which icon stands for an application.

use freedesktop_desktop_entry::DesktopEntry;
use vstd::prelude::*;

verus! {

/// A desktop entry of the `freedesktop_desktop_entry` crate: a collection of
/// keys with their values, and the names it goes by. What it holds is seen
/// through [`entry_fields`] and [`entry_names`] only.
#[verifier::external_type_specification]
#[verifier::external_body]
pub struct ExDesktopEntry(DesktopEntry);

/// The keys under `[Desktop Entry]`, each with its value for no locale in
/// particular.
pub uninterp spec fn entry_fields(entry: DesktopEntry) -> Map<Seq<char>, Seq<char>>;

/// The names that an entry goes by: its ID, and behind it the stem of its
/// file's name where that is text.
pub uninterp spec fn entry_names(entry: DesktopEntry) -> Seq<Seq<char>>;

/// The position of the entry that `find_app_by_id` picks for an application ID
/// out of a list, in which each entry is given by its names and its keys.
pub uninterp spec fn matching_position(
    entries: Seq<(Seq<Seq<char>>, Map<Seq<char>, Seq<char>>)>,
    app_id: Seq<char>,
) -> Option<int>;

/// The entries of a list, each by its names and its keys.
pub open spec fn entry_views(entries: Seq<DesktopEntry>) -> Seq<
    (Seq<Seq<char>>, Map<Seq<char>, Seq<char>>),
> {
    entries.map_values(|e: DesktopEntry| (entry_names(e), entry_fields(e)))
}

/// The part of an application ID behind its last dot; all of it where there is
/// no dot.
pub open spec fn last_component(app_id: Seq<char>) -> Seq<char> {
    match app_id.index_of_last('.') {
        Some(dot) => app_id.skip(dot + 1),
        None => app_id,
    }
}

/// `DesktopEntry::from_appid` makes an entry that goes by the application ID
/// and has no file, with one key, `Name`, whose value is the last part of the
/// ID between dots.
pub assume_specification[ DesktopEntry::from_appid ](appid: String) -> (r: DesktopEntry)
    ensures
        entry_names(r) == seq![appid@],
        entry_fields(r) == map!["Name"@ => last_component(appid@)],
;

/// `DesktopEntry::icon` gives the value of the key `Icon`, where there is one.
pub assume_specification[ DesktopEntry::icon ](entry: &DesktopEntry) -> (r: Option<&str>)
    ensures
        match r {
            Some(icon) => entry_fields(*entry).contains_key("Icon"@) && entry_fields(*entry)["Icon"@]
                == icon@,
            None => !entry_fields(*entry).contains_key("Icon"@),
        },
;

/// Calls `freedesktop_desktop_entry::find_app_by_id`, which goes by the names
/// and the keys of the entries. The position of the entry that it picks is
/// named [`matching_position`]; by which rules it picks is not stated. The
/// crate is built without its feature `gettext`, with which the search by name
/// would go by translations too, and so by the locale.
#[verifier::external_body]
fn find_app_by_id<'a>(entries: &'a Vec<DesktopEntry>, app_id: &str) -> (r: Option<&'a DesktopEntry>)
    ensures
        match matching_position(entry_views(entries@), app_id@) {
            Some(i) => 0 <= i < entries@.len() && r == Some(&entries@[i]),
            None => r is None,
        },
{
    freedesktop_desktop_entry::find_app_by_id(
        entries,
        freedesktop_desktop_entry::unicase::Ascii::new(app_id),
    )
}

/// The name of the icon for applications that have none of their own.
pub open spec fn default_icon() -> Seq<char> {
    "application-x-executable"@
}

/// The icon that an entry with these keys asks for.
pub open spec fn icon_of(fields: Map<Seq<char>, Seq<char>>) -> Seq<char> {
    if fields.contains_key("Icon"@) {
        fields["Icon"@]
    } else {
        default_icon()
    }
}

/// The icon for an application: that of the entry that is picked for its ID,
/// and the default where none is.
pub open spec fn icon_name(entries: Seq<DesktopEntry>, app_id: Seq<char>) -> Seq<char> {
    match matching_position(entry_views(entries), app_id) {
        Some(i) => icon_of(entry_fields(entries[i])),
        None => default_icon(),
    }
}

/// An icon, or the default where there is none.
pub fn icon_or_default(icon: Option<&str>) -> (r: String)
    ensures
        r@ == match icon {
            Some(icon) => icon@,
            None => default_icon(),
        },
{
    match icon {
        Some(icon) => icon.to_owned(),
        None => "application-x-executable".to_owned(),
    }
}

/// The icon for the application `app_id`, given the entry that is picked for it.
pub fn icon_name_given(found: Option<&DesktopEntry>, app_id: &str) -> (r: String)
    ensures
        r@ == match found {
            Some(entry) => icon_of(entry_fields(*entry)),
            None => default_icon(),
        },
{
    match found {
        Some(entry) => icon_or_default(entry.icon()),
        None => {
            let entry = DesktopEntry::from_appid(app_id.to_owned());
            proof {
                reveal_strlit("Name");
                reveal_strlit("Icon");
                assert("Name"@[0] != "Icon"@[0]);
            }
            icon_or_default(entry.icon())
        },
    }
}

/// Resolves an application ID to the name or the path of an icon.
pub fn icon_name_for(entries: &Vec<DesktopEntry>, app_id: &str) -> (r: String)
    ensures
        r@ == icon_name(entries@, app_id@),
{
    icon_name_given(find_app_by_id(entries, app_id), app_id)
}

/// Where an icon is loaded from.
#[derive(Clone, Debug)]
pub enum IconSource {
    /// A file.
    Path(String),
    /// The icon theme, by name.
    Name(String),
}

/// The text of an [`IconSource`].
pub enum IconView {
    Path(Seq<char>),
    Name(Seq<char>),
}

impl View for IconSource {
    type V = IconView;

    open spec fn view(&self) -> IconView {
        match self {
            IconSource::Path(path) => IconView::Path(path@),
            IconSource::Name(name) => IconView::Name(name@),
        }
    }
}

/// An icon with a slash in it is a path; any other is a name.
pub open spec fn icon_view(icon: Seq<char>) -> IconView {
    if icon.contains('/') {
        IconView::Path(icon)
    } else {
        IconView::Name(icon)
    }
}

/// Tells whether an icon is a path or a name. Desktop entries sometimes give a
/// path where a name in the icon theme is expected.
pub fn icon_source(icon: String) -> (r: IconSource)
    ensures
        r@ == icon_view(icon@),
{
    let mut slash = false;
    for c in it: icon.as_str().chars()
        invariant
            it.seq() == icon@,
            slash <==> icon@.take(it.index() as int).contains('/'),
    {
        proof {
            let seen = icon@.take(it.index() as int);
            let next = icon@.take(it.index() + 1);
            assert(next =~= seen.push(c));
            if seen.contains('/') {
                let k = choose|k: int| 0 <= k < seen.len() && seen[k] == '/';
                assert(next[k] == '/');
            }
            if next.contains('/') && c != '/' {
                let k = choose|k: int| 0 <= k < next.len() && next[k] == '/';
                assert(seen[k] == '/');
            }
            assert(next[seen.len() as int] == c);
        }
        if c == '/' {
            slash = true;
        }
    }
    assert(icon@.take(icon@.len() as int) =~= icon@);
    if slash {
        IconSource::Path(icon)
    } else {
        IconSource::Name(icon)
    }
}

} // verus!
