use vstd::prelude::*;

use crate::text::{owned, str_trim, trimmed};

verus! {

/// A reported processor name, trimmed, when anything is left of it.
pub open spec fn cpu_name_candidate(raw: Option<Seq<char>>) -> Option<Seq<char>> {
    match raw {
        Some(s) => if trimmed(s).len() > 0 {
            Some(trimmed(s))
        } else {
            None
        },
        None => None,
    }
}

/// A reported processor name, trimmed; `None` when nothing is left of it or
/// nothing was reported.
pub fn cpu_model_candidate(raw: Option<String>) -> (r: Option<String>)
    ensures
        cpu_name_candidate(match raw {
            Some(s) => Some(s@),
            None => None,
        }) == match r {
            Some(s) => Some(s@),
            None => None,
        },
{
    match raw {
        Some(s) => {
            let t = str_trim(s.as_str());
            if t.as_str().unicode_len() > 0 {
                Some(t)
            } else {
                None
            }
        },
        None => None,
    }
}

/// The processor model shown: the first name found, or `Unknown`.
pub fn cpu_model_or_unknown(found: Option<String>) -> (r: String)
    ensures
        r@ == match found {
            Some(s) => s@,
            None => "Unknown"@,
        },
{
    match found {
        Some(s) => s,
        None => owned("Unknown"),
    }
}

/// The WebView2 runtime counts as portable when the browser-folder
/// variable is set to something non-empty or a `webview2` folder lies
/// beside the program.
pub open spec fn webview2_is_portable(folder_variable: Option<Seq<char>>, bundled_folder: bool) -> bool {
    (match folder_variable {
        Some(v) => v.len() > 0,
        None => false,
    }) || bundled_folder
}

/// The label of the WebView2 environment: portable or local.
pub fn webview2_environment_label(folder_variable: Option<String>, bundled_folder: bool) -> (r:
    String)
    ensures
        r@ == if webview2_is_portable(
            match folder_variable {
                Some(v) => Some(v@),
                None => None,
            },
            bundled_folder,
        ) {
            "便携环境"@
        } else {
            "本地环境"@
        },
{
    let set = match &folder_variable {
        Some(v) => v.as_str().unicode_len() > 0,
        None => false,
    };
    if set || bundled_folder {
        owned("便携环境")
    } else {
        owned("本地环境")
    }
}

} // verus!
