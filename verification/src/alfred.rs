//! The launcher item shape a ranked record is converted into.
//!
//! Serializing these items to the launcher's JSON wire format happens
//! outside the library; what is verified here is the conversion from a
//! canonical record, field by field.

use vstd::prelude::*;

use crate::search::SearchResult;

verus! {

/// A launcher script-filter item.
#[derive(Debug, Clone, PartialEq)]
pub struct AlfredItem {
    pub uid: Option<String>,
    pub title: String,
    pub subtitle: Option<String>,
    pub arg: Option<String>,
    pub icon: Option<Icon>,
    pub valid: Option<bool>,
    pub mods: Option<Mods>,
    pub text: Option<Text>,
    pub quicklookurl: Option<String>,
}

/// An item icon; `icon_type` selects how the launcher reads `path`.
#[derive(Debug, Clone, PartialEq)]
pub struct Icon {
    pub icon_type: Option<String>,
    pub path: String,
}

/// Modifier-key actions for an item.
#[derive(Debug, Clone, PartialEq)]
pub struct Mods {
    pub alt: Option<ModifierAction>,
    pub cmd: Option<ModifierAction>,
    pub ctrl: Option<ModifierAction>,
}

/// One modifier-key action.
#[derive(Debug, Clone, PartialEq)]
pub struct ModifierAction {
    pub valid: bool,
    pub arg: String,
    pub subtitle: String,
}

/// Copy and large-type text for an item.
#[derive(Debug, Clone, PartialEq)]
pub struct Text {
    pub copy: String,
    pub largetype: String,
}

/// A whole launcher response.
#[derive(Debug, Clone, PartialEq)]
pub struct AlfredResponse {
    pub items: Vec<AlfredItem>,
}

impl AlfredItem {
    /// Converts a ranked record into a launcher item.  The URL becomes
    /// the item's identity and argument; the icon is set only when
    /// favicon display is on and the record carries one.
    pub fn from_result(result: &SearchResult, show_favicon: bool) -> (item: AlfredItem)
        ensures
            item.uid == Some(result.url),
            item.title == result.title,
            item.subtitle == Some(result.subtitle),
            item.arg == Some(result.url),
            item.valid == Some(true),
            item.text is None,
            item.quicklookurl is None,
            match item.icon {
                Some(ic) => show_favicon && result.favicon == Some(ic.path) && (match ic
                    .icon_type {
                    Some(t) => t@ == "fileicon"@,
                    None => false,
                }),
                None => !show_favicon || result.favicon is None,
            },
            match item.mods {
                Some(m) => {
                    &&& (match m.alt {
                        Some(a) => a.valid && a.arg == result.url && a.subtitle == result.url,
                        None => false,
                    })
                    &&& (match m.cmd {
                        Some(c) => c.valid && c.arg == result.url && c.subtitle@
                            == "Other Actions..."@,
                        None => false,
                    })
                    &&& m.ctrl is None
                },
                None => false,
            },
    {
        let icon: Option<Icon> = if show_favicon {
            match &result.favicon {
                Some(path) => Some(
                    Icon { icon_type: Some("fileicon".to_owned()), path: path.clone() },
                ),
                None => None,
            }
        } else {
            None
        };
        AlfredItem {
            uid: Some(result.url.clone()),
            title: result.title.clone(),
            subtitle: Some(result.subtitle.clone()),
            arg: Some(result.url.clone()),
            icon,
            valid: Some(true),
            mods: Some(
                Mods {
                    alt: Some(
                        ModifierAction {
                            valid: true,
                            arg: result.url.clone(),
                            subtitle: result.url.clone(),
                        },
                    ),
                    cmd: Some(
                        ModifierAction {
                            valid: true,
                            arg: result.url.clone(),
                            subtitle: "Other Actions...".to_owned(),
                        },
                    ),
                    ctrl: None,
                },
            ),
            text: None,
            quicklookurl: None,
        }
    }
}

} // verus!
