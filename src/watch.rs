//! Reload notices for the development watcher: which file changes call for
//! a reload of open pages.
use vstd::prelude::*;
use crate::media::same_text;

verus! {

/// What open pages are told when watched files change.
#[derive(Debug, Clone, Copy, PartialEq, Eq, Structural)]
pub enum WatchEvent {
    /// An asset changed: reload.
    Reload,
    /// A template changed: it takes a rebuild to show.
    TemplateChanged,
}

pub open spec fn is_template_ext(e: Option<Seq<char>>) -> bool {
    e == Some("html"@)
}

pub open spec fn is_asset_ext(e: Option<Seq<char>>) -> bool {
    e == Some("css"@) || e == Some("js"@) || e == Some("ts"@)
}

pub open spec fn ext_views(v: Seq<Option<String>>) -> Seq<Option<Seq<char>>> {
    v.map_values(|e: Option<String>| match e {
        Some(s) => Some(s@),
        None => None,
    })
}

/// Sorts a file event: `changed` tells whether it is a creation, change or
/// removal, `extensions` are those of the paths it names. The first result
/// says whether pages reload (a template or an asset changed), the second
/// whether a template changed.
pub fn categorize_event(changed: bool, extensions: &Vec<Option<String>>) -> (r: (bool, bool))
    ensures
        r.0 == (changed && exists|i: int|
            0 <= i < extensions@.len() && (is_template_ext(#[trigger] ext_views(extensions@)[i])
                || is_asset_ext(ext_views(extensions@)[i]))),
        r.1 == (changed && exists|i: int|
            0 <= i < extensions@.len() && is_template_ext(#[trigger] ext_views(extensions@)[i])),
{
    if !changed {
        return (false, false);
    }
    let ghost ev = ext_views(extensions@);
    let mut reload = false;
    let mut template = false;
    let mut i: usize = 0;
    while i < extensions.len()
        invariant
            ev == ext_views(extensions@),
            0 <= i <= extensions@.len(),
            reload == exists|j: int|
                0 <= j < i && (is_template_ext(#[trigger] ev[j]) || is_asset_ext(ev[j])),
            template == exists|j: int| 0 <= j < i && is_template_ext(#[trigger] ev[j]),
        decreases extensions@.len() - i,
    {
        match &extensions[i] {
            Some(e) => {
                let s = e.as_str();
                if same_text(s, "html") {
                    reload = true;
                    template = true;
                } else if same_text(s, "css") || same_text(s, "js") || same_text(s, "ts") {
                    reload = true;
                }
            },
            None => {},
        }
        assert(ev[i as int] == match extensions@[i as int] {
            Some(s) => Some(s@),
            None => None,
        });
        i = i + 1;
    }
    (reload, template)
}

} // verus!
