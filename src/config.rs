use vstd::prelude::*;

use vstd::string::StringExecFns;

verus! {

pub const DEFAULT_PORT: u32 = 22;

/// How to reach one server and log in to it.
#[derive(Debug)]
pub struct ServerConfig {
    pub ip: String,
    pub username: String,
    pub password: String,
    pub port: Option<u32>,
}

impl ServerConfig {
    pub open spec fn port_spec(&self) -> u32 {
        match self.port {
            Some(p) => p,
            None => DEFAULT_PORT,
        }
    }

    /// The port to connect to; the standard one where none is given.
    pub fn port_or_default(&self) -> (r: u32)
        ensures
            r == self.port_spec(),
    {
        match self.port {
            Some(p) => p,
            None => DEFAULT_PORT,
        }
    }
}

/// The servers that a list of named entries defines; a later entry replaces an earlier one.
pub open spec fn server_map(s: Seq<(String, ServerConfig)>) -> Map<Seq<char>, ServerConfig>
    decreases s.len(),
{
    if s.len() == 0 {
        Map::empty()
    } else {
        server_map(s.drop_last()).insert(s.last().0@, s.last().1)
    }
}

proof fn lemma_server_tail(s: Seq<(String, ServerConfig)>, i: int, name: Seq<char>)
    requires
        0 <= i <= s.len(),
        forall|j: int| i <= j < s.len() ==> (#[trigger] s[j]).0@ != name,
    ensures
        server_map(s).contains_key(name) == server_map(s.subrange(0, i)).contains_key(name),
        server_map(s).contains_key(name) ==> server_map(s)[name] == server_map(s.subrange(0, i))[name],
    decreases s.len() - i,
{
    if i < s.len() {
        let t = s.drop_last();
        assert(s[s.len() - 1].0@ != name);
        lemma_server_tail(t, i, name);
        assert(t.subrange(0, i) =~= s.subrange(0, i));
    } else {
        assert(s.subrange(0, i) =~= s);
    }
}

/// The settings: the editor to open them with, and the servers by name.
#[derive(Debug)]
pub struct Conf {
    pub edit_path: Option<String>,
    pub server_config: Option<Vec<(String, ServerConfig)>>,
}

impl Conf {
    pub open spec fn servers(&self) -> Map<Seq<char>, ServerConfig> {
        match self.server_config {
            Some(v) => server_map(v@),
            None => Map::empty(),
        }
    }

    /// Settings with no editor and no server.
    pub fn new() -> (r: Conf)
        ensures
            r.edit_path is None,
            r.servers() == Map::<Seq<char>, ServerConfig>::empty(),
    {
        Conf { edit_path: None, server_config: None }
    }

    /// Adds the server `name`, replacing one of that name.
    pub fn insert_server(&mut self, name: String, server: ServerConfig)
        ensures
            final(self).servers() == old(self).servers().insert(name@, server),
            final(self).edit_path == old(self).edit_path,
    {
        let mut v = match self.server_config.take() {
            Some(v) => v,
            None => Vec::new(),
        };
        let ghost before = v@;
        assert(server_map(before) == old(self).servers()) by {
            if old(self).server_config is None {
                assert(before =~= Seq::<(String, ServerConfig)>::empty());
            }
        }
        v.push((name, server));
        assert(v@.drop_last() =~= before);
        self.server_config = Some(v);
    }

    /// The server of that name, if the settings define one.
    pub fn get_server(&self, name: &str) -> (r: Option<&ServerConfig>)
        ensures
            r is Some <==> self.servers().contains_key(name@),
            r matches Some(s) ==> *s == self.servers()[name@],
    {
        let key = name.to_owned();
        match &self.server_config {
            None => None,
            Some(v) => {
                let mut i: usize = v.len();
                while i > 0
                    invariant
                        0 <= i <= v.len(),
                        key@ == name@,
                        self.server_config == Some(*v),
                        forall|j: int| i <= j < v@.len() ==> (#[trigger] v@[j]).0@ != key@,
                    decreases i,
                {
                    if v[i - 1].0 == key {
                        proof {
                            lemma_server_tail(v@, i as int, key@);
                            assert(v@.subrange(0, i as int).drop_last() =~= v@.subrange(0, i - 1));
                            assert(v@.subrange(0, i as int).last() == v@[i - 1]);
                        }
                        return Some(&v[i - 1].1);
                    }
                    i -= 1;
                }
                proof {
                    lemma_server_tail(v@, 0, key@);
                }
                None
            },
        }
    }

    /// The editor command to open the settings with; `notepad` where none is set.
    pub fn editor_command(&self) -> (r: String)
        ensures
            self.edit_path matches Some(e) ==> r@ == e@,
            self.edit_path is None ==> r@ == "notepad"@,
    {
        match &self.edit_path {
            Some(e) => e.clone(),
            None => String::from_str("notepad"),
        }
    }
}

} // verus!
