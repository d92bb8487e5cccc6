//! Program settings: file names and the known source aliases.

use crate::keymap::{insert_entry, KeyMap};
use vstd::prelude::*;

verus! {

/// File names and the git addresses of the known source aliases.
#[derive(Debug)]
pub struct Settings {
    pub cfg_file: String,
    pub lang_file: String,
    pub alias_git: KeyMap<String>,
}

impl Settings {
    /// The default settings: `settings.yaml`, `languages.toml`, and the
    /// aliases `poo`, `fup` and `ed` of the arcade repositories.
    pub fn new(_path_dir: Option<String>) -> (r: Self)
        ensures
            r.cfg_file@ == "settings.yaml"@,
            r.lang_file@ == "languages.toml"@,
            crate::keymap::str_view(r.alias_git@) == seq![
                ("poo"@, "https://github.com/qxcodepoo/arcade.git"@),
                ("fup"@, "https://github.com/qxcodefup/arcade.git"@),
                ("ed"@, "https://github.com/qxcodeed/arcade.git"@),
            ],
    {
        let mut alias_git: KeyMap<String> = KeyMap::new();
        proof {
            reveal_strlit("poo");
            reveal_strlit("fup");
            reveal_strlit("ed");
        }
        let k1 = "poo".to_string();
        let v1 = "https://github.com/qxcodepoo/arcade.git".to_string();
        let k2 = "fup".to_string();
        let v2 = "https://github.com/qxcodefup/arcade.git".to_string();
        let k3 = "ed".to_string();
        let v3 = "https://github.com/qxcodeed/arcade.git".to_string();
        assert(k1@[0] != k2@[0] && k1@[0] != k3@[0] && k2@[0] != k3@[0]);
        let ghost e0 = alias_git@;
        proof {
            crate::keymap::lemma_key_index_found(e0, k1@);
            crate::keymap::lemma_str_view_insert(e0, k1@, v1);
        }
        alias_git.insert(k1, v1);
        let ghost e1 = alias_git@;
        proof {
            crate::keymap::lemma_key_index_found(e1, k2@);
            crate::keymap::lemma_str_view_insert(e1, k2@, v2);
        }
        alias_git.insert(k2, v2);
        let ghost e2 = alias_git@;
        proof {
            crate::keymap::lemma_key_index_found(e2, k3@);
            crate::keymap::lemma_str_view_insert(e2, k3@, v3);
        }
        alias_git.insert(k3, v3);
        proof {
            assert(crate::keymap::str_view(e0) =~= Seq::<(Seq<char>, Seq<char>)>::empty());
            assert(crate::keymap::str_view(e1) =~= seq![(k1@, v1@)]);
            assert(crate::keymap::str_view(e2) =~= seq![(k1@, v1@), (k2@, v2@)]);
            assert(crate::keymap::str_view(alias_git@) =~= seq![
                ("poo"@, "https://github.com/qxcodepoo/arcade.git"@),
                ("fup"@, "https://github.com/qxcodefup/arcade.git"@),
                ("ed"@, "https://github.com/qxcodeed/arcade.git"@),
            ]);
        }
        Settings {
            cfg_file: "settings.yaml".to_string(),
            lang_file: "languages.toml".to_string(),
            alias_git,
        }
    }
}

} // verus!
