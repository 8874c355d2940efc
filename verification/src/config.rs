//! Editor configuration: the colour theme and the language server to start
//! for each file extension.

use vstd::prelude::*;
use crate::text::str_eq;
use crate::paths::{path_extension, extension_of, join_path, joined_path};

verus! {

/// How to start a language server.
#[derive(Debug)]
pub struct LspServerConfig {
    pub command: String,
    pub args: Vec<String>,
    pub language_id: String,
}

/// The mathematical form of a server configuration.
pub struct ServerView {
    pub command: Seq<char>,
    pub args: Seq<Seq<char>>,
    pub language_id: Seq<char>,
}

impl View for LspServerConfig {
    type V = ServerView;

    open spec fn view(&self) -> ServerView {
        ServerView {
            command: self.command@,
            args: self.args@.map_values(|a: String| a@),
            language_id: self.language_id@,
        }
    }
}

fn clone_strings(v: &Vec<String>) -> (r: Vec<String>)
    ensures
        r@.map_values(|a: String| a@) == v@.map_values(|a: String| a@),
{
    let mut r: Vec<String> = Vec::new();
    let mut i: usize = 0;
    while i < v.len()
        invariant
            i <= v.len(),
            r@.len() == i,
            forall|j: int| 0 <= j < i ==> (#[trigger] r@[j])@ == v@[j]@,
        decreases v.len() - i,
    {
        r.push(v[i].clone());
        i = i + 1;
    }
    proof {
        assert(r@.map_values(|a: String| a@) =~= v@.map_values(|a: String| a@));
    }
    r
}

impl Clone for LspServerConfig {
    fn clone(&self) -> (r: Self)
        ensures
            r@ == self@,
    {
        LspServerConfig {
            command: self.command.clone(),
            args: clone_strings(&self.args),
            language_id: self.language_id.clone(),
        }
    }
}

/// A server entry as the configuration file gives it.
#[derive(Debug)]
pub struct FileLspServerConfig {
    pub command: String,
    pub args: Vec<String>,
    pub language_id: Option<String>,
}

/// The configuration file's contents.
#[derive(Debug)]
pub struct FileConfig {
    pub theme: Option<String>,
    /// `[lsp.<extension>]` tables, in the order the file's map yields them.
    pub lsp: Vec<(String, FileLspServerConfig)>,
}

/// The configuration: a server for each extension, and the theme.
#[derive(Debug)]
pub struct Config {
    /// Entries in the order they were made; a later entry for an extension
    /// takes the place of an earlier one.
    lsp_by_extension: Vec<(String, LspServerConfig)>,
    theme: Option<String>,
}

pub struct ConfigView {
    pub lsp: Map<Seq<char>, ServerView>,
    pub theme: Option<Seq<char>>,
}

/// The map that a list of entries makes, later entries winning.
pub open spec fn entries_map(s: Seq<(Seq<char>, ServerView)>) -> Map<Seq<char>, ServerView>
    decreases s.len(),
{
    if s.len() == 0 {
        Map::empty()
    } else {
        entries_map(s.drop_last()).insert(s.last().0, s.last().1)
    }
}

pub open spec fn opt_view(o: Option<String>) -> Option<Seq<char>> {
    match o {
        Some(s) => Some(s@),
        None => None,
    }
}

impl View for Config {
    type V = ConfigView;

    closed spec fn view(&self) -> ConfigView {
        ConfigView {
            lsp: entries_map(
                self.lsp_by_extension@.map_values(|e: (String, LspServerConfig)| (e.0@, e.1@)),
            ),
            theme: opt_view(self.theme),
        }
    }
}

pub open spec fn server(command: Seq<char>, args: Seq<Seq<char>>, language_id: Seq<char>) -> ServerView {
    ServerView { command, args, language_id }
}

/// The servers known without a configuration file.
pub open spec fn default_lsp() -> Map<Seq<char>, ServerView> {
    Map::empty().insert("rs"@, server("rust-analyzer"@, seq![], "rust"@)).insert(
        "py"@,
        server("pyright-langserver"@, seq!["--stdio"@], "python"@),
    ).insert("js"@, server("typescript-language-server"@, seq!["--stdio"@], "javascript"@)).insert(
        "jsx"@,
        server("typescript-language-server"@, seq!["--stdio"@], "javascript"@),
    ).insert("ts"@, server("typescript-language-server"@, seq!["--stdio"@], "typescript"@)).insert(
        "tsx"@,
        server("typescript-language-server"@, seq!["--stdio"@], "typescript"@),
    ).insert("go"@, server("gopls"@, seq![], "go"@))
}

/// `s` without its leading dots.
pub open spec fn strip_leading_dots(s: Seq<char>) -> Seq<char>
    decreases s.len(),
{
    if s.len() > 0 && s[0] == '.' {
        strip_leading_dots(s.drop_first())
    } else {
        s
    }
}

pub struct FileServerView {
    pub command: Seq<char>,
    pub args: Seq<Seq<char>>,
    pub language_id: Option<Seq<char>>,
}

/// The map after applying one `[lsp.<ext>]` table: the extension loses its
/// leading dots; a missing language id is taken from the server already
/// known for the extension, or else is the extension itself.
pub open spec fn with_file_entry(
    m: Map<Seq<char>, ServerView>,
    ext: Seq<char>,
    s: FileServerView,
) -> Map<Seq<char>, ServerView> {
    let e = strip_leading_dots(ext);
    let lang = match s.language_id {
        Some(l) => l,
        None => if m.dom().contains(e) {
            m[e].language_id
        } else {
            e
        },
    };
    m.insert(e, server(s.command, s.args, lang))
}

/// The map after applying the file's tables in order.
pub open spec fn with_file_entries(
    m: Map<Seq<char>, ServerView>,
    entries: Seq<(Seq<char>, FileServerView)>,
) -> Map<Seq<char>, ServerView>
    decreases entries.len(),
{
    if entries.len() == 0 {
        m
    } else {
        with_file_entry(
            with_file_entries(m, entries.drop_last()),
            entries.last().0,
            entries.last().1,
        )
    }
}

pub open spec fn file_entries(f: FileConfig) -> Seq<(Seq<char>, FileServerView)> {
    f.lsp@.map_values(
        |e: (String, FileLspServerConfig)|
            (
                e.0@,
                FileServerView {
                    command: e.1.command@,
                    args: e.1.args@.map_values(|a: String| a@),
                    language_id: opt_view(e.1.language_id),
                },
            ),
    )
}

/// The configuration a file makes (the defaults without one).
pub open spec fn loaded_config(file: Option<FileConfig>) -> ConfigView {
    match file {
        None => ConfigView { lsp: default_lsp(), theme: None },
        Some(f) => ConfigView {
            lsp: with_file_entries(default_lsp(), file_entries(f)),
            theme: opt_view(f.theme),
        },
    }
}

fn strings_from(args: &[&str]) -> (r: Vec<String>)
    ensures
        r@.map_values(|a: String| a@) == args@.map_values(|a: &str| a@),
{
    let mut r: Vec<String> = Vec::new();
    let mut i: usize = 0;
    while i < args.len()
        invariant
            i <= args.len(),
            r@.len() == i,
            forall|j: int| 0 <= j < i ==> (#[trigger] r@[j])@ == args@[j]@,
        decreases args.len() - i,
    {
        r.push(args[i].to_owned());
        i = i + 1;
    }
    proof {
        assert(r@.map_values(|a: String| a@) =~= args@.map_values(|a: &str| a@));
    }
    r
}

impl Config {
    spec fn entries(&self) -> Seq<(Seq<char>, ServerView)> {
        self.lsp_by_extension@.map_values(|e: (String, LspServerConfig)| (e.0@, e.1@))
    }

    /// Adds a server for an extension, in place of any earlier one.
    fn insert(&mut self, ext: String, server: LspServerConfig)
        ensures
            final(self)@ == (ConfigView {
                lsp: old(self)@.lsp.insert(ext@, server@),
                ..old(self)@
            }),
    {
        let ghost before = self.entries();
        let ghost e = (ext@, server@);
        self.lsp_by_extension.push((ext, server));
        proof {
            assert(self.entries() =~= before.push(e));
            assert(self.entries().drop_last() =~= before);
        }
    }

    /// The server configured for an extension, if any.
    fn get(&self, ext: &str) -> (r: Option<&LspServerConfig>)
        ensures
            match r {
                Some(c) => self@.lsp.dom().contains(ext@) && self@.lsp[ext@] == c@,
                None => !self@.lsp.dom().contains(ext@),
            },
    {
        let ghost s = self.entries();
        let mut i = self.lsp_by_extension.len();
        proof {
            assert(s.take(i as int) =~= s);
        }
        while i > 0
            invariant
                i <= s.len(),
                s == self.entries(),
                s.len() == self.lsp_by_extension@.len(),
                entries_map(s.take(i as int)).dom().contains(ext@) == self@.lsp.dom().contains(
                    ext@,
                ),
                entries_map(s.take(i as int))[ext@] == self@.lsp[ext@],
            decreases i,
        {
            proof {
                assert(s.take(i as int).drop_last() =~= s.take(i - 1));
            }
            if str_eq(self.lsp_by_extension[i - 1].0.as_str(), ext) {
                return Some(&self.lsp_by_extension[i - 1].1);
            }
            i = i - 1;
        }
        proof {
            assert(s.take(0) =~= Seq::<(Seq<char>, ServerView)>::empty());
        }
        None
    }

    /// Adds one server for each of the extensions.
    fn add(&mut self, exts: &[&str], command: &str, args: &[&str], language_id: &str)
        ensures
            final(self)@.theme == old(self)@.theme,
            final(self)@.lsp == add_all(
                old(self)@.lsp,
                exts@.map_values(|e: &str| e@),
                server(command@, args@.map_values(|a: &str| a@), language_id@),
            ),
    {
        let ghost m0 = self@.lsp;
        let ghost sv = server(command@, args@.map_values(|a: &str| a@), language_id@);
        let ghost es = exts@.map_values(|e: &str| e@);
        let mut i: usize = 0;
        while i < exts.len()
            invariant
                i <= exts.len(),
                es == exts@.map_values(|e: &str| e@),
                sv == server(command@, args@.map_values(|a: &str| a@), language_id@),
                self@.theme == old(self)@.theme,
                self@.lsp == add_all(m0, es.take(i as int), sv),
            decreases exts.len() - i,
        {
            let cfg = LspServerConfig {
                command: command.to_owned(),
                args: strings_from(args),
                language_id: language_id.to_owned(),
            };
            let ext = exts[i].to_owned();
            proof {
                assert(cfg@.args =~= sv.args);
                assert(cfg@ == sv);
            }
            self.insert(ext, cfg);
            i = i + 1;
            proof {
                assert(es.take(i as int).drop_last() =~= es.take(i - 1));
                assert(es.take(i as int).last() == exts@[i - 1]@);
            }
        }
        proof {
            assert(es.take(exts.len() as int) =~= es);
        }
    }

    /// The configuration made from the configuration file's contents, or the
    /// defaults without a file.  Reading and parsing the file is the
    /// caller's part.
    pub fn load(file_config: Option<FileConfig>) -> (c: Config)
        ensures
            c@ == loaded_config(file_config),
    {
        let mut this = default_lsp_configs();
        match file_config {
            None => this,
            Some(file) => {
                let ghost fe = file_entries(file);
                let FileConfig { theme, lsp } = file;
                this.theme = theme;
                let entries = lsp;
                let ghost all = fe;
                let mut i: usize = 0;
                let n = entries.len();
                proof {
                    assert(all.take(0) =~= Seq::<(Seq<char>, FileServerView)>::empty());
                }
                while i < n
                    invariant
                        n == entries@.len(),
                        i <= n,
                        all == entries@.map_values(
                            |e: (String, FileLspServerConfig)|
                                (
                                    e.0@,
                                    FileServerView {
                                        command: e.1.command@,
                                        args: e.1.args@.map_values(|a: String| a@),
                                        language_id: opt_view(e.1.language_id),
                                    },
                                ),
                        ),
                        this@.theme == opt_view(theme),
                        this@.lsp == with_file_entries(default_lsp(), all.take(i as int)),
                    decreases n - i,
                {
                    let ext = strip_dots(entries[i].0.as_str());
                    let lang: String = match &entries[i].1.language_id {
                        Some(l) => l.clone(),
                        None => match this.get(ext.as_str()) {
                            Some(c) => c.language_id.clone(),
                            None => ext.clone(),
                        },
                    };
                    let cfg = LspServerConfig {
                        command: entries[i].1.command.clone(),
                        args: clone_strings(&entries[i].1.args),
                        language_id: lang,
                    };
                    this.insert(ext, cfg);
                    i = i + 1;
                    proof {
                        assert(all.take(i as int).drop_last() =~= all.take(i - 1));
                        assert(all.take(i as int).last() == all[i - 1]);
                    }
                }
                proof {
                    assert(all.take(n as int) =~= all);
                }
                this
            },
        }
    }

    /// The server for a file, by its extension.
    pub fn lsp_for_path(&self, path: &str) -> (r: Option<LspServerConfig>)
        ensures
            match path_extension(path@) {
                Some(e) => match r {
                    Some(c) => self@.lsp.dom().contains(e) && self@.lsp[e] == c@,
                    None => !self@.lsp.dom().contains(e),
                },
                None => r is None,
            },
    {
        let ext = match extension_of(path) {
            Some(e) => e,
            None => return None,
        };
        match self.get(ext.as_str()) {
            Some(c) => Some(c.clone()),
            None => None,
        }
    }

    /// The configured theme, if any.
    pub fn theme(&self) -> (r: Option<&str>)
        ensures
            match r {
                Some(t) => self@.theme == Some(t@),
                None => self@.theme is None,
            },
    {
        match &self.theme {
            Some(t) => Some(t.as_str()),
            None => None,
        }
    }
}

/// The map after adding the same server for each extension in order.
pub open spec fn add_all(m: Map<Seq<char>, ServerView>, exts: Seq<Seq<char>>, s: ServerView) -> Map<
    Seq<char>,
    ServerView,
>
    decreases exts.len(),
{
    if exts.len() == 0 {
        m
    } else {
        add_all(m, exts.drop_last(), s).insert(exts.last(), s)
    }
}

/// `s` without its leading dots, as `str::trim_start_matches('.')` leaves it.
fn strip_dots(s: &str) -> (r: String)
    ensures
        r@ == strip_leading_dots(s@),
{
    let cs = crate::text::chars_of(s);
    let mut i: usize = 0;
    proof {
        assert(cs@.skip(0) =~= cs@);
    }
    while i < cs.len() && cs[i] == '.'
        invariant
            i <= cs.len(),
            strip_leading_dots(cs@.skip(i as int)) == strip_leading_dots(cs@),
        decreases cs.len() - i,
    {
        proof {
            assert(cs@.skip(i as int).drop_first() =~= cs@.skip(i + 1));
        }
        i = i + 1;
    }
    let mut out: Vec<char> = Vec::new();
    let mut j = i;
    while j < cs.len()
        invariant
            i <= j <= cs.len(),
            out@ == cs@.subrange(i as int, j as int),
        decreases cs.len() - j,
    {
        out.push(cs[j]);
        j = j + 1;
    }
    proof {
        assert(out@ =~= cs@.skip(i as int));
        assert(cs@.skip(0) =~= cs@);
    }
    crate::text::string_from_chars(out.as_slice())
}

/// The servers known without a configuration file.
fn default_lsp_configs() -> (c: Config)
    ensures
        c@ == (ConfigView { lsp: default_lsp(), theme: None }),
{
    let mut c = Config { lsp_by_extension: Vec::new(), theme: None };
    proof {
        assert(c.lsp_by_extension@.map_values(|e: (String, LspServerConfig)| (e.0@, e.1@))
            =~= Seq::<(Seq<char>, ServerView)>::empty());
    }
    let stdio: [&str; 1] = ["--stdio"];
    let none: [&str; 0] = [];
    let rs: [&str; 1] = ["rs"];
    let py: [&str; 1] = ["py"];
    let js: [&str; 2] = ["js", "jsx"];
    let ts: [&str; 2] = ["ts", "tsx"];
    let go: [&str; 1] = ["go"];
    proof {
        reveal_with_fuel(add_all, 3);
        assert(none@.map_values(|a: &str| a@) =~= Seq::<Seq<char>>::empty());
        assert(stdio@.map_values(|a: &str| a@) =~= seq!["--stdio"@]);
        assert(rs@.map_values(|a: &str| a@) =~= seq!["rs"@]);
        assert(py@.map_values(|a: &str| a@) =~= seq!["py"@]);
        assert(js@.map_values(|a: &str| a@) =~= seq!["js"@, "jsx"@]);
        assert(ts@.map_values(|a: &str| a@) =~= seq!["ts"@, "tsx"@]);
        assert(go@.map_values(|a: &str| a@) =~= seq!["go"@]);
        assert(seq!["js"@, "jsx"@].drop_last() =~= seq!["js"@]);
        assert(seq!["ts"@, "tsx"@].drop_last() =~= seq!["ts"@]);
        assert(seq!["rs"@].drop_last() =~= Seq::<Seq<char>>::empty());
        assert(seq!["py"@].drop_last() =~= Seq::<Seq<char>>::empty());
        assert(seq!["go"@].drop_last() =~= Seq::<Seq<char>>::empty());
        assert(seq!["js"@].drop_last() =~= Seq::<Seq<char>>::empty());
        assert(seq!["ts"@].drop_last() =~= Seq::<Seq<char>>::empty());
    }
    c.add(&rs, "rust-analyzer", &none, "rust");
    c.add(&py, "pyright-langserver", &stdio, "python");
    c.add(&js, "typescript-language-server", &stdio, "javascript");
    c.add(&ts, "typescript-language-server", &stdio, "typescript");
    c.add(&go, "gopls", &none, "go");
    proof {
        reveal_with_fuel(add_all, 3);
    }
    c
}

/// Where the configuration file is: `medit.toml` in `$XDG_CONFIG_HOME`
/// when that is set and not empty, else in `.config` under the home
/// directory; none without either.
pub open spec fn config_path_of(xdg_config_home: Option<Seq<char>>, home: Option<Seq<char>>) -> Option<Seq<char>> {
    match xdg_config_home {
        Some(x) if x.len() > 0 => Some(joined_path(x, "medit.toml"@)),
        _ => match home {
            Some(h) => Some(joined_path(joined_path(h, ".config"@), "medit.toml"@)),
            None => None,
        },
    }
}

/// The configuration file's path, from the values of `$XDG_CONFIG_HOME`
/// and `$HOME`.
pub fn config_path_from(xdg_config_home: Option<&str>, home: Option<&str>) -> (r: Option<String>)
    ensures
        match r {
            Some(p) => config_path_of(
                match xdg_config_home { Some(x) => Some(x@), None => None },
                match home { Some(h) => Some(h@), None => None },
            ) == Some(p@),
            None => config_path_of(
                match xdg_config_home { Some(x) => Some(x@), None => None },
                match home { Some(h) => Some(h@), None => None },
            ) is None,
        },
{
    match xdg_config_home {
        Some(x) => {
            if crate::text::chars_of(x).len() > 0 {
                return Some(join_path(x, "medit.toml"));
            }
        },
        None => {},
    }
    match home {
        Some(h) => {
            let dir = join_path(h, ".config");
            Some(join_path(dir.as_str(), "medit.toml"))
        },
        None => None,
    }
}

} // verus!
