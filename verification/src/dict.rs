//! Custom dictionary.
//!
//! Two sources are merged: a bundled list of tool names, commands, languages
//! and acronyms that people type in prose, and the user's own list. Each
//! non-empty line that is no comment is a word that is never flagged.
//! Comparison is case-insensitive against the literal word.

use crate::text::{chars_of, is_line, string_of, trim, trimmed};
use vstd::prelude::*;

verus! {

/// The bundled list, so that a fresh install has a sensible baseline.
pub const DEFAULT_DICT_TEXT: &'static str = "# Words that are no misspellings in prose about software. One word per line;
# lines that start with a hash sign are comments.

# Tools
ultrathink
anthropic
tuipo
codex
aider
mcp

# Commands and shells
grep
ripgrep
awk
sed
curl
wget
ssh
scp
rsync
sudo
chmod
chown
mkdir
rmdir
tmux
zsh
bash
zshrc
bashrc
vim
nvim
neovim
emacs
htop
kubectl
kubernetes
docker
dockerfile
podman
systemd
systemctl
cron
crontab
git
github
gitlab
rebase
cherrypick
stdin
stdout
stderr
tty
pty
cli
clis
tui
tuis
repl

# Languages, frameworks and tools
rust
cargo
rustc
golang
kotlin
python
pytest
numpy
pandas
typescript
javascript
nodejs
npm
npx
pnpm
webpack
vite
eslint
react
redux
vue
svelte
nextjs
django
fastapi
rails
laravel
postgres
postgresql
mysql
sqlite
mongodb
redis
kafka
graphql
terraform
ansible
nginx
linux
macos
ubuntu
debian
homebrew
wasm
webassembly

# Acronyms and formats
api
apis
http
https
tls
ssl
tcp
udp
dns
url
urls
uri
json
yaml
toml
csv
xml
html
css
svg
pdf
pdfs
oauth
jwt
sdk
sdks
ide
ides
cpu
cpus
gpu
gpus
ram
aws
gcp
ci
cd
sql
orm
regex
utf
ascii
ansi

# Everyday shop talk
async
await
refactor
refactoring
dev
devs
repo
repos
config
configs
env
auth
backend
frontend
middleware
runtime
hostname
localhost
changelog
readme
todo
bool
enum
struct
args
param
params
init
util
utils
";

/// What `str::to_lowercase` gives for a text.
pub uninterp spec fn lowercase(s: Seq<char>) -> Seq<char>;

/// `c` with an upper-case letter of ASCII made lower-case.
pub open spec fn ascii_lower(c: char) -> char {
    if 'A' <= c <= 'Z' {
        ((c as u32 + 32) as u32) as char
    } else {
        c
    }
}

/// `str::to_lowercase` maps a text by Unicode's lower-case rules, which
/// depend on the text alone. On ASCII it maps the letters one by one.
pub assume_specification[ str::to_lowercase ](s: &str) -> (r: String)
    ensures
        r@ == lowercase(s@),
        vstd::utf8::is_ascii_chars(s@) ==> r@ == s@.map_values(|c: char| ascii_lower(c)),
;

/// The word that a line of a dictionary lists; blank lines and comments list
/// none.
pub open spec fn entry(line: Seq<char>) -> Option<Seq<char>> {
    let word = trimmed(line);
    if word.len() == 0 || word[0] == '#' {
        None
    } else {
        Some(lowercase(word))
    }
}

/// All words that a dictionary text lists.
pub open spec fn entries(text: Seq<char>) -> Set<Seq<char>> {
    Set::new(
        |w: Seq<char>|
            exists|from: int, to: int| #[trigger]
                is_line(text, from, to) && entry(text.subrange(from, to)) == Some(w),
    )
}

#[derive(Debug)]
pub struct CustomDict {
    /// Lower-case words, none of them twice.
    words: Vec<String>,
}

impl View for CustomDict {
    type V = Set<Seq<char>>;

    closed spec fn view(&self) -> Set<Seq<char>> {
        self.words@.map_values(|w: String| w@).to_set()
    }
}

impl Clone for CustomDict {
    fn clone(&self) -> (r: Self)
        ensures
            r@ == self@,
            r.wf() == self.wf(),
    {
        CustomDict { words: crate::spell::clone_strings(&self.words) }
    }
}

impl CustomDict {
    pub closed spec fn wf(&self) -> bool {
        self.words@.map_values(|w: String| w@).no_duplicates()
    }

    pub fn empty() -> (r: Self)
        ensures
            r.wf(),
            r@ == Set::<Seq<char>>::empty(),
    {
        let r = CustomDict { words: Vec::new() };
        proof {
            assert(r@ =~= Set::<Seq<char>>::empty());
        }
        r
    }

    /// The bundled list, extended by the user's own list where there is one.
    pub fn bundled(user: Option<&str>) -> (r: Self)
        ensures
            r.wf(),
            r@ == match user {
                Some(text) => entries(DEFAULT_DICT_TEXT@).union(entries(text@)),
                None => entries(DEFAULT_DICT_TEXT@),
            },
    {
        let mut dict = CustomDict::from_text(DEFAULT_DICT_TEXT);
        if let Some(text) = user {
            dict.extend_from_text(text);
        }
        dict
    }

    pub fn from_text(text: &str) -> (r: Self)
        ensures
            r.wf(),
            r@ == entries(text@),
    {
        let mut dict = CustomDict::empty();
        dict.extend_from_text(text);
        proof {
            assert(dict@ =~= entries(text@));
        }
        dict
    }

    /// Merges another text source into this dictionary.
    pub fn extend_from_text(&mut self, text: &str)
        requires
            old(self).wf(),
        ensures
            final(self).wf(),
            final(self)@ == old(self)@.union(entries(text@)),
    {
        let chars = chars_of(text);
        let n: usize = chars.len();
        let ghost seen = Set::new(|w: Seq<char>| false);
        let mut from: usize = 0;
        loop
            invariant
                n == chars@.len(),
                chars@ == text@,
                from <= n,
                from == 0 || text@[from - 1] == '\n',
                self.wf(),
                self@ == old(self)@.union(seen),
                forall|w: Seq<char>| #[trigger]
                    seen.contains(w) <==> exists|a: int, b: int|
                        a < from && #[trigger] is_line(text@, a, b) && entry(
                            text@.subrange(a, b),
                        ) == Some(w),
            decreases n - from,
        {
            let mut to: usize = from;
            while to < n && chars[to] != '\n'
                invariant
                    n == chars@.len(),
                    from <= to <= n,
                    forall|i: int| from <= i < to ==> chars@[i] != '\n',
                decreases n - to,
            {
                to += 1;
            }
            let line = vstd::slice::slice_subrange(chars.as_slice(), from, to);
            self.add_line(line);
            proof {
                let now = match entry(line@) {
                    Some(w) => seen.insert(w),
                    None => seen,
                };
                assert(self@ =~= old(self)@.union(now));
                assert(is_line(text@, from as int, to as int));
                assert forall|w: Seq<char>| #[trigger] now.contains(w) <==> exists|
                    a: int,
                    b: int,
                |
                    a < to + 1 && #[trigger] is_line(text@, a, b) && entry(text@.subrange(a, b))
                        == Some(w) by {
                    assert forall|a: int, b: int| from <= a < to + 1 && #[trigger] is_line(
                        text@,
                        a,
                        b,
                    ) implies a == from && b == to by {
                        if a > from {
                            assert(text@[a - 1] == '\n');
                        }
                        if b < to {
                            assert(text@[b] == '\n');
                        } else if b > to {
                            assert(text@[to as int] == '\n');
                        }
                    }
                }
                seen = now;
            }
            if to == n {
                proof {
                    assert(seen =~= entries(text@)) by {
                        assert forall|w: Seq<char>| seen.contains(w) <==> entries(
                            text@,
                        ).contains(w) by {
                            assert forall|a: int, b: int| #[trigger]
                                is_line(text@, a, b) implies a < to + 1 by {}
                        }
                    }
                }
                return;
            }
            from = to + 1;
        }
    }

    /// Adds the word that a line lists.
    fn add_line(&mut self, line: &[char])
        requires
            old(self).wf(),
        ensures
            final(self).wf(),
            final(self)@ == match entry(line@) {
                Some(w) => old(self)@.insert(w),
                None => old(self)@,
            },
    {
        let word = trim(line);
        if word.len() == 0 || word[0] == '#' {
            return;
        }
        let lower = string_of(word.as_slice()).as_str().to_lowercase();
        let ghost before = self.words@.map_values(|w: String| w@);
        if self.find(lower.as_str()) {
            proof {
                assert(self@.insert(lower@) =~= self@);
            }
            return;
        }
        self.words.push(lower);
        proof {
            let after = self.words@.map_values(|w: String| w@);
            assert(after =~= before.push(lower@));
            assert(after.to_set() =~= before.to_set().insert(lower@)) by {
                assert forall|w: Seq<char>| after.to_set().contains(w) <==> before.to_set().insert(
                    lower@,
                ).contains(w) by {
                    if before.contains(w) {
                        let i = choose|i: int| 0 <= i < before.len() && before[i] == w;
                        assert(after[i] == w);
                    }
                    assert(after[before.len() as int] == lower@);
                }
            }
        }
    }

    /// Whether a lower-case word is listed.
    fn find(&self, lower: &str) -> (r: bool)
        ensures
            r == self@.contains(lower@),
    {
        let ghost listed = self.words@.map_values(|w: String| w@);
        let mut i: usize = 0;
        while i < self.words.len()
            invariant
                listed == self.words@.map_values(|w: String| w@),
                i <= self.words@.len(),
                forall|j: int| 0 <= j < i ==> listed[j] != lower@,
            decreases self.words@.len() - i,
        {
            if crate::text::same_text(self.words[i].as_str(), lower) {
                proof {
                    assert(listed[i as int] == lower@);
                    assert(listed.contains(lower@));
                }
                return true;
            }
            i += 1;
        }
        proof {
            assert(!listed.contains(lower@));
        }
        false
    }

    pub fn contains(&self, word: &str) -> (r: bool)
        ensures
            r == self@.contains(lowercase(word@)),
    {
        if self.words.len() == 0 {
            proof {
                assert(self.words@.map_values(|w: String| w@) =~= Seq::<Seq<char>>::empty());
            }
            return false;
        }
        self.find(word.to_lowercase().as_str())
    }

    pub fn len(&self) -> (r: usize)
        requires
            self.wf(),
        ensures
            self@.finite(),
            r == self@.len(),
    {
        proof {
            let listed = self.words@.map_values(|w: String| w@);
            listed.unique_seq_to_set();
            vstd::seq_lib::seq_to_set_is_finite(listed);
        }
        self.words.len()
    }

    pub fn is_empty(&self) -> (r: bool)
        ensures
            r == (self@ == Set::<Seq<char>>::empty()),
    {
        proof {
            let listed = self.words@.map_values(|w: String| w@);
            if listed.len() > 0 {
                assert(listed.contains(listed[0]));
                assert(self@.contains(listed[0]));
            } else {
                assert(self@ =~= Set::<Seq<char>>::empty());
            }
        }
        self.words.len() == 0
    }
}

impl Default for CustomDict {
    fn default() -> (r: Self)
        ensures
            r.wf(),
            r@ == Set::<Seq<char>>::empty(),
    {
        CustomDict::empty()
    }
}

/// A line with a word lists that word, in lower case, whatever whitespace is
/// around it.
pub proof fn words_are_listed(
    text: Seq<char>,
    from: int,
    to: int,
    start: int,
    end: int,
)
    requires
        is_line(text, from, to),
        from <= start < end <= to,
        forall|i: int|
            from <= i < start || end <= i < to ==> crate::text::is_white_space(#[trigger] text[i]),
        !crate::text::is_white_space(text[start]),
        !crate::text::is_white_space(text[end - 1]),
        text[start] != '#',
    ensures
        entries(text).contains(lowercase(text.subrange(start, end))),
{
    let line = text.subrange(from, to);
    crate::text::trimming_takes_outer_whitespace(line);
    let (a, b) = choose|a: int, b: int|
        0 <= a <= b <= line.len() && #[trigger] line.subrange(a, b) == trimmed(line) && (forall|
            i: int,
        |
            0 <= i < a || b <= i < line.len() ==> crate::text::is_white_space(#[trigger] line[i]));
    let s = start - from;
    let e = end - from;
    assert(line[s] == text[start] && line[e - 1] == text[end - 1]);
    assert(a <= s < b) by {
        if s < a || b <= s {
            assert(crate::text::is_white_space(line[s]));
        }
    }
    assert(a < e <= b) by {
        if e - 1 < a || b <= e - 1 {
            assert(crate::text::is_white_space(line[e - 1]));
        }
    }
    assert(a == s) by {
        if a < s {
            assert(trimmed(line)[0] == line[a]);
            assert(line[a] == text[from + a]);
        }
    }
    assert(b == e) by {
        if e < b {
            assert(trimmed(line).last() == line[b - 1]);
            assert(line[b - 1] == text[from + b - 1]);
        }
    }
    assert(trimmed(line) =~= text.subrange(start, end));
    assert(entry(line) == Some(lowercase(text.subrange(start, end))));
    assert(is_line(text, from, to));
}

/// What is listed stands on a line that is no comment; comments and blank
/// lines list nothing.
pub proof fn listed_words_stand_on_lines(text: Seq<char>, word: Seq<char>)
    requires
        entries(text).contains(word),
    ensures
        exists|from: int, to: int, start: int, end: int|
            from <= start < end <= to && #[trigger] is_line(text, from, to) && word == lowercase(
                #[trigger] text.subrange(start, end),
            ) && text[start] != '#' && (forall|i: int|
                from <= i < start ==> crate::text::is_white_space(#[trigger] text[i])),
{
    let (from, to) = choose|from: int, to: int| #[trigger]
        is_line(text, from, to) && entry(text.subrange(from, to)) == Some(word);
    let line = text.subrange(from, to);
    crate::text::trimming_takes_outer_whitespace(line);
    let (a, b) = choose|a: int, b: int|
        0 <= a <= b <= line.len() && #[trigger] line.subrange(a, b) == trimmed(line) && (forall|
            i: int,
        |
            0 <= i < a || b <= i < line.len() ==> crate::text::is_white_space(#[trigger] line[i]));
    let start = from + a;
    let end = from + b;
    assert(text.subrange(start, end) =~= trimmed(line));
    assert(text[start] == trimmed(line)[0]);
    assert forall|i: int| from <= i < start implies crate::text::is_white_space(
        #[trigger] text[i],
    ) by {
        assert(line[i - from] == text[i]);
    }
    assert(is_line(text, from, to) && word == lowercase(text.subrange(start, end)));
}

/// Two lists with a line feed between them list the words of both.
pub proof fn lists_add_up(a: Seq<char>, b: Seq<char>)
    ensures
        entries(a.push('\n') + b) == entries(a).union(entries(b)),
{
    let all = a.push('\n') + b;
    let n = a.len() as int;
    assert(all[n] == '\n');
    assert forall|w: Seq<char>|
        entries(all).contains(w) <==> entries(a).union(entries(b)).contains(w) by {
        if entries(all).contains(w) {
            let (from, to) = choose|from: int, to: int| #[trigger]
                is_line(all, from, to) && entry(all.subrange(from, to)) == Some(w);
            assert(to <= n || from > n);
            if to <= n {
                assert(is_line(a, from, to)) by {
                    assert(forall|i: int| 0 <= i < n ==> all[i] == a[i]);
                }
                assert(all.subrange(from, to) =~= a.subrange(from, to));
            } else {
                let f = from - n - 1;
                let t = to - n - 1;
                assert(forall|i: int| 0 <= i < b.len() ==> all[n + 1 + i] == b[i]);
                assert(is_line(b, f, t)) by {
                    if f > 0 {
                        assert(all[from - 1] == b[f - 1]);
                    }
                    if t < b.len() {
                        assert(all[to] == b[t]);
                    }
                    assert forall|i: int| f <= i < t implies b[i] != '\n' by {
                        assert(all[n + 1 + i] == b[i]);
                    }
                }
                assert(all.subrange(from, to) =~= b.subrange(f, t));
            }
        }
        if entries(a).contains(w) {
            let (from, to) = choose|from: int, to: int| #[trigger]
                is_line(a, from, to) && entry(a.subrange(from, to)) == Some(w);
            assert(all.subrange(from, to) =~= a.subrange(from, to));
            assert(is_line(all, from, to));
        }
        if entries(b).contains(w) {
            let (from, to) = choose|from: int, to: int| #[trigger]
                is_line(b, from, to) && entry(b.subrange(from, to)) == Some(w);
            let f = from + n + 1;
            let t = to + n + 1;
            assert(all.subrange(f, t) =~= b.subrange(from, to));
            assert(is_line(all, f, t)) by {
                if from > 0 {
                    assert(all[f - 1] == b[from - 1]);
                }
                if to < b.len() {
                    assert(all[t] == b[to]);
                }
                assert forall|i: int| f <= i < t implies all[i] != '\n' by {
                    assert(all[i] == b[i - n - 1]);
                }
            }
        }
    }
    assert(entries(all) =~= entries(a).union(entries(b)));
}

} // verus!
