//! Drafts of the student's own source: their keys, the files that count as
//! drafts, and the text a new draft starts with. Walking folders and writing
//! files are left to the caller.

use crate::chars::{copy_string, push_char, push_str};
use crate::strs::{
    ends_with_spec, nat_decimal, pad_left, pad_left_exec, parse_u32, parse_u32_spec, starts_with,
    starts_with_spec, strings_view, u64_to_string,
};
use vstd::prelude::*;

verus! {

/// The text a new draft starts with, after its title.
pub const DRAFT_README: &'static str = r#"Escreva aqui as informações que você quer salvar, esse é o seu rascunho.
O texto abaixo é informativo e você pode apagar depois de aprender como usar os rascunhos.

## Como usar os rascunhos

- A chave do seu rascunho é o nome da pasta.
- O título do seu rascunho é carregado a partir da primeira linha desse arquivo \#
- Tudo que você fizer nos rascunhos também será rastreado pelo tko.

## Como criar seus próprios testes

Um teste é composto de um `input` (o texto que será fornecido para o programa) e um `output` (o texto que o programa deve retornar para esse input) e pode ter opcionalmente um `label` para facilitar a identificação do teste.

Seus casos de teste personalizados podem ser escritos diretamente aqui na descrição do problema dentro de um fenced code block com a linguagem `toml` ou em um arquivo `tests.toml` na pasta do problema. O TKO irá carregar automaticamente os testes quando a tarefa for aberta ou executada novamente.

Exemplo de teste para ler dois números, um por linha, e imprimir a soma e a subtração deles.

Se quiser habilitar esses casos de teste e ver funcionando, insira algo no input e no output.

```toml
# Exemplo de entrada em uma linha
[[tests]]
input = ''
output = ''

# Exemplo de entrada em múltiplas linhas
# [[tests]]
# input = '''
# 1
# 2
# '''
# output = '''
# 3
# 4
# '''
```"#;

/// The text for a report.
pub const MD_DRAFT: &'static str = r#"
Se a tarefa exigir um relatório, escreva ele aqui. Você pode usar markdown, imagens e o que mais quiser para criar um relatório bem completo."#;

/// The drafts of the student's own source.
#[derive(Debug)]
pub struct SandboxDrafts {
    pub sandbox_key_prefix: &'static str,
    pub draft_readme: &'static str,
    pub md_draft: &'static str,
}

/// The numbers of the keys `prefix_N`, in order.
pub open spec fn numbered(keys: Seq<Seq<char>>, prefix: Seq<char>) -> Seq<u32>
    decreases keys.len(),
{
    if keys.len() == 0 {
        Seq::empty()
    } else {
        let r = numbered(keys.drop_last(), prefix);
        let k = keys.last();
        let p = prefix.push('_');
        if starts_with_spec(k, p) && parse_u32_spec(k.skip(p.len() as int)) is Some {
            r.push(parse_u32_spec(k.skip(p.len() as int)).unwrap())
        } else {
            r
        }
    }
}

/// The largest number of a list, 0 for none.
pub open spec fn max_or_zero(ns: Seq<u32>) -> u32
    decreases ns.len(),
{
    if ns.len() == 0 {
        0
    } else {
        let m = max_or_zero(ns.drop_last());
        if ns.last() > m {
            ns.last()
        } else {
            m
        }
    }
}

/// The file extensions that count as drafts: the extra ones, the language
/// (when given), then `h` after C and `h`, `hpp` after C++.
pub open spec fn allowed_spec(lang: Seq<char>, extra: Seq<Seq<char>>) -> Seq<Seq<char>> {
    let a = if lang.len() > 0 {
        extra.push(lang)
    } else {
        extra
    };
    let b = if a.contains(seq!['c']) {
        a.push(seq!['h'])
    } else {
        a
    };
    if b.contains(seq!['c', 'p', 'p']) {
        b.push(seq!['h']).push(seq!['h', 'p', 'p'])
    } else {
        b
    }
}


/// The number that a key gives under `prefix`: the rest after `prefix_`,
/// when it reads as a number.
pub open spec fn key_number(k: Seq<char>, prefix: Seq<char>) -> Option<u32> {
    let p = prefix.push('_');
    if starts_with_spec(k, p) {
        parse_u32_spec(k.skip(p.len() as int))
    } else {
        None
    }
}

proof fn lemma_max_or_zero(ns: Seq<u32>)
    ensures
        forall|i: int| 0 <= i < ns.len() ==> #[trigger] ns[i] <= max_or_zero(ns),
        max_or_zero(ns) == 0 || ns.contains(max_or_zero(ns)),
    decreases ns.len(),
{
    if ns.len() > 0 {
        let init = ns.drop_last();
        lemma_max_or_zero(init);
        assert forall|i: int| 0 <= i < ns.len() implies #[trigger] ns[i] <= max_or_zero(ns) by {
            if i < init.len() {
                assert(ns[i] == init[i]);
            }
        }
        if max_or_zero(ns) != 0 {
            if ns.last() > max_or_zero(init) {
                assert(ns[ns.len() - 1] == max_or_zero(ns));
            } else {
                let j = choose|j: int| 0 <= j < init.len() && init[j] == max_or_zero(init);
                assert(ns[j] == init[j]);
            }
        }
    }
}

proof fn lemma_numbered_keys(keys: Seq<Seq<char>>, prefix: Seq<char>)
    ensures
        forall|j: int|
            0 <= j < keys.len() && #[trigger] key_number(keys[j], prefix) is Some ==> numbered(keys, prefix).contains(
                key_number(keys[j], prefix).unwrap(),
            ),
        forall|i: int|
            0 <= i < numbered(keys, prefix).len() ==> exists|j: int|
                0 <= j < keys.len() && #[trigger] key_number(keys[j], prefix) == Some(
                    #[trigger] numbered(keys, prefix)[i],
                ),
    decreases keys.len(),
{
    if keys.len() > 0 {
        let init = keys.drop_last();
        lemma_numbered_keys(init, prefix);
        let r = numbered(init, prefix);
        let n = numbered(keys, prefix);
        let last = keys.len() - 1;
        assert(keys[last] == keys.last());
        assert forall|j: int|
            0 <= j < keys.len() && #[trigger] key_number(keys[j], prefix) is Some implies n.contains(
                key_number(keys[j], prefix).unwrap(),
            ) by {
            if j < init.len() {
                assert(keys[j] == init[j]);
                let x = key_number(keys[j], prefix).unwrap();
                let q = choose|q: int| 0 <= q < r.len() && r[q] == x;
                assert(n[q] == x);
            } else {
                assert(n[n.len() - 1] == key_number(keys[j], prefix).unwrap());
            }
        }
        assert forall|i: int| 0 <= i < n.len() implies exists|j: int|
            0 <= j < keys.len() && #[trigger] key_number(keys[j], prefix) == Some(#[trigger] n[i]) by {
            if i < r.len() {
                assert(n[i] == r[i]);
                let j = choose|j: int| 0 <= j < init.len() && #[trigger] key_number(init[j], prefix) == Some(r[i]);
                assert(keys[j] == init[j]);
            } else {
                assert(key_number(keys[last], prefix) == Some(n[i]));
            }
        }
    }
}

/// The largest numbered key: no key of the form `prefix_N` has a number
/// above it, and it is the number of such a key, or 0 when there is none.
pub proof fn lemma_max_numbered_key(keys: Seq<Seq<char>>, prefix: Seq<char>)
    ensures
        forall|j: int|
            0 <= j < keys.len() && #[trigger] key_number(keys[j], prefix) is Some ==> key_number(keys[j], prefix).unwrap()
                <= max_or_zero(numbered(keys, prefix)),
        max_or_zero(numbered(keys, prefix)) == 0 || exists|j: int|
            0 <= j < keys.len() && #[trigger] key_number(keys[j], prefix) == Some(max_or_zero(numbered(keys, prefix))),
{
    let n = numbered(keys, prefix);
    lemma_numbered_keys(keys, prefix);
    lemma_max_or_zero(n);
    assert forall|j: int|
        0 <= j < keys.len() && #[trigger] key_number(keys[j], prefix) is Some implies key_number(keys[j], prefix).unwrap()
            <= max_or_zero(n) by {
        let x = key_number(keys[j], prefix).unwrap();
        let q = choose|q: int| 0 <= q < n.len() && n[q] == x;
        assert(n[q] <= max_or_zero(n));
    }
    if max_or_zero(n) != 0 {
        let q = choose|q: int| 0 <= q < n.len() && n[q] == max_or_zero(n);
        assert(exists|j: int| 0 <= j < keys.len() && #[trigger] key_number(keys[j], prefix) == Some(n[q]));
    }
}

/// A draft's key reads back as its number: among keys holding only the key
/// of draft `n`, the largest number is `n`.
pub proof fn lemma_draft_key_number(prefix: Seq<char>, n: u32)
    ensures
        max_or_zero(numbered(seq![prefix + seq!['_'] + pad_left(nat_decimal(n as nat), 3, '0')], prefix)) == n,
{
    let k = prefix + seq!['_'] + pad_left(nat_decimal(n as nat), 3, '0');
    let p = prefix.push('_');
    assert(p =~= prefix + seq!['_']);
    assert(k.take(p.len() as int) =~= p);
    assert(k.skip(p.len() as int) =~= pad_left(nat_decimal(n as nat), 3, '0'));
    crate::strs::lemma_parse_padded(n, 3);
    let ks = seq![k];
    assert(ks.drop_last() =~= Seq::<Seq<char>>::empty());
    assert(numbered(Seq::<Seq<char>>::empty(), prefix) =~= Seq::<u32>::empty());
    assert(ks.last() == k);
    assert(starts_with_spec(k, p));
    assert(parse_u32_spec(k.skip(p.len() as int)) == Some(n));
    assert(numbered(ks, prefix) =~= seq![n]);
    assert(seq![n].drop_last() =~= Seq::<u32>::empty());
    assert(max_or_zero(Seq::<u32>::empty()) == 0);
    assert(max_or_zero(seq![n]) == n);
}

fn list_contains(v: &Vec<String>, s: &str) -> (r: bool)
    ensures
        r == strings_view(v@).contains(s@),
{
    let mut i: usize = 0;
    while i < v.len()
        invariant
            i <= v@.len(),
            forall|j: int| 0 <= j < i ==> v@[j]@ != s@,
        decreases v.len() - i,
    {
        if crate::chars::str_equal(v[i].as_str(), s) {
            assert(strings_view(v@)[i as int] == s@);
            return true;
        }
        i = i + 1;
    }
    proof {
        if strings_view(v@).contains(s@) {
            let j = choose|j: int| 0 <= j < strings_view(v@).len() && strings_view(v@)[j] == s@;
            assert(v@[j]@ == s@);
        }
    }
    false
}

fn push_string(v: &mut Vec<String>, s: &str)
    ensures
        strings_view(final(v)@) == strings_view(old(v)@).push(s@),
{
    let ghost before = v@;
    let c = s.to_string();
    v.push(c);
    proof {
        crate::strs::lemma_strings_view_push(before, c);
    }
}

impl SandboxDrafts {
    /// The drafts of keys `user_NNN`, with the starting texts.
    pub fn new() -> (r: Self)
        ensures
            r.sandbox_key_prefix@ == "user"@,
            r.draft_readme@ == DRAFT_README@,
            r.md_draft@ == MD_DRAFT@,
    {
        SandboxDrafts { sandbox_key_prefix: "user", draft_readme: DRAFT_README, md_draft: MD_DRAFT }
    }

    /// The key of draft `draft_id`: the prefix, `_`, and the number with at
    /// least three digits.
    pub fn format_draft_key(&self, draft_id: u32) -> (r: String)
        ensures
            r@ == self.sandbox_key_prefix@ + seq!['_'] + pad_left(nat_decimal(draft_id as nat), 3, '0'),
    {
        let digits = u64_to_string(draft_id as u64);
        let padded = pad_left_exec(digits.as_str(), 3, '0');
        let mut out = self.sandbox_key_prefix.to_string();
        push_char(&mut out, '_');
        push_str(&mut out, padded.as_str());
        out
    }

    /// The largest number of the keys `prefix_N` (N a number), 0 for none.
    pub fn find_max_numbered_key(&self, task_keys_only: Vec<String>) -> (r: u32)
        ensures
            r == max_or_zero(numbered(strings_view(task_keys_only@), self.sandbox_key_prefix@)),
    {
        let mut p = self.sandbox_key_prefix.to_string();
        push_char(&mut p, '_');
        let plen = p.as_str().unicode_len();
        let ghost kv = strings_view(task_keys_only@);
        let ghost prefix = self.sandbox_key_prefix@;
        let mut best: u32 = 0;
        let mut i: usize = 0;
        assert(kv.take(0) =~= Seq::<Seq<char>>::empty());
        while i < task_keys_only.len()
            invariant
                i <= task_keys_only@.len(),
                kv == strings_view(task_keys_only@),
                prefix == self.sandbox_key_prefix@,
                p@ == prefix.push('_'),
                plen == p@.len(),
                best == max_or_zero(numbered(kv.take(i as int), prefix)),
            decreases task_keys_only.len() - i,
        {
            proof {
                assert(kv.take(i + 1).drop_last() =~= kv.take(i as int));
                assert(kv[i as int] == task_keys_only@[i as int]@);
            }
            let key = task_keys_only[i].as_str();
            if starts_with(key, p.as_str()) {
                let n = key.unicode_len();
                let rest = key.substring_char(plen, n);
                assert(rest@ =~= key@.skip(plen as int));
                let parsed = parse_u32(rest);
                proof {
                    let r0 = numbered(kv.take(i as int), prefix);
                    if parsed is Some {
                        assert(r0.push(parsed.unwrap()).drop_last() =~= r0);
                    }
                }
                match parsed {
                    Some(v) => {
                        if v > best {
                            best = v;
                        }
                    },
                    None => {},
                }
            }
            i = i + 1;
        }
        assert(kv.take(kv.len() as int) =~= kv);
        best
    }

    /// The extensions of the files that count as drafts (see
    /// [`allowed_spec`]).
    pub fn allowed_extensions(lang: &str, extra: Option<Vec<String>>) -> (r: Vec<String>)
        ensures
            strings_view(r@) == allowed_spec(
                lang@,
                match extra {
                    Some(e) => strings_view(e@),
                    None => Seq::empty(),
                },
            ),
    {
        let ghost e0 = match &extra {
            Some(e) => strings_view(e@),
            None => Seq::<Seq<char>>::empty(),
        };
        let mut allowed = match extra {
            Some(e) => e,
            None => Vec::new(),
        };
        assert(strings_view(allowed@) =~= e0);
        proof {
            reveal_strlit("c");
            reveal_strlit("cpp");
            reveal_strlit("h");
            reveal_strlit("hpp");
            assert("c"@ =~= seq!['c']);
            assert("cpp"@ =~= seq!['c', 'p', 'p']);
            assert("h"@ =~= seq!['h']);
            assert("hpp"@ =~= seq!['h', 'p', 'p']);
        }
        if lang.unicode_len() > 0 {
            push_string(&mut allowed, lang);
        }
        if list_contains(&allowed, "c") {
            push_string(&mut allowed, "h");
        }
        if list_contains(&allowed, "cpp") {
            push_string(&mut allowed, "h");
            push_string(&mut allowed, "hpp");
        }
        allowed
    }

    /// Whether a file found under the drafts folder is a draft: no folder
    /// between the drafts folder and the file starts with `.` or `_`, and its
    /// name ends with an allowed extension.
    pub fn is_draft_file(folders: &Vec<String>, file_name: &str, allowed: &Vec<String>) -> (r: bool)
        ensures
            r == ((forall|i: int| 0 <= i < folders@.len() ==> !(#[trigger] folders@[i]@.len() > 0 && (
            folders@[i]@[0] == '.' || folders@[i]@[0] == '_'))) && exists|j: int|
                0 <= j < allowed@.len() && ends_with_spec(file_name@, #[trigger] allowed@[j]@)),
    {
        let mut i: usize = 0;
        while i < folders.len()
            invariant
                i <= folders@.len(),
                forall|k: int| 0 <= k < i ==> !(#[trigger] folders@[k]@.len() > 0 && (folders@[k]@[0] == '.'
                    || folders@[k]@[0] == '_')),
            decreases folders.len() - i,
        {
            let f = folders[i].as_str();
            if f.unicode_len() > 0 && (f.get_char(0) == '.' || f.get_char(0) == '_') {
                return false;
            }
            i = i + 1;
        }
        let mut j: usize = 0;
        while j < allowed.len()
            invariant
                j <= allowed@.len(),
                forall|k: int| 0 <= k < folders@.len() ==> !(#[trigger] folders@[k]@.len() > 0 && (folders@[k]@[0]
                    == '.' || folders@[k]@[0] == '_')),
                forall|k: int| 0 <= k < j ==> !ends_with_spec(file_name@, #[trigger] allowed@[k]@),
            decreases allowed.len() - j,
        {
            if crate::strs::ends_with(file_name, allowed[j].as_str()) {
                return true;
            }
            j = j + 1;
        }
        false
    }

    /// The text of a new draft titled `title`: `# title`, a blank line and
    /// the starting text.
    pub fn draft_content(&self, title: &str) -> (r: String)
        ensures
            r@ == seq!['#', ' '] + title@ + seq!['\n', '\n'] + self.draft_readme@,
    {
        let mut out = String::new();
        push_char(&mut out, '#');
        push_char(&mut out, ' ');
        push_str(&mut out, title);
        push_char(&mut out, '\n');
        push_char(&mut out, '\n');
        push_str(&mut out, self.draft_readme);
        out
    }
}

} // verus!
