//! The two language servers behind the proxy.

use vstd::prelude::*;

verus! {

pub const NAME: &'static str = "gitlab-ci-bash-ls";

pub const VERSION: &'static str = "2.0.0";

#[derive(Clone, Copy, Debug, PartialEq, Eq, Structural)]
pub enum Backend {
    Bash,
    Yaml,
}

pub open spec fn backend_index(backend: Backend) -> int {
    match backend {
        Backend::Bash => 0,
        Backend::Yaml => 1,
    }
}

pub open spec fn program_of(backend: Backend) -> Seq<char> {
    match backend {
        Backend::Bash => "bash-language-server"@,
        Backend::Yaml => "yaml-language-server"@,
    }
}

pub open spec fn path_env_of(backend: Backend) -> Seq<char> {
    match backend {
        Backend::Bash => "BASH_LANGUAGE_SERVER_PATH"@,
        Backend::Yaml => "YAML_LANGUAGE_SERVER_PATH"@,
    }
}

pub open spec fn argument_of(backend: Backend) -> Seq<char> {
    match backend {
        Backend::Bash => "start"@,
        Backend::Yaml => "--stdio"@,
    }
}

pub open spec fn purpose_of(backend: Backend) -> Seq<char> {
    match backend {
        Backend::Bash => "script linting, hover and completion"@,
        Backend::Yaml => "GitLab CI key completion and schema validation"@,
    }
}

/// The program to start: the one that the environment names, or the usual one.
pub open spec fn path_of(backend: Backend, configured: Option<Seq<char>>) -> Seq<char> {
    match configured {
        Some(path) => if path.len() > 0 {
            path
        } else {
            program_of(backend)
        },
        None => program_of(backend),
    }
}

impl Backend {
    pub fn index(self) -> (r: usize)
        ensures
            r == backend_index(self),
    {
        match self {
            Backend::Bash => 0,
            Backend::Yaml => 1,
        }
    }

    pub fn program(self) -> (r: &'static str)
        ensures
            r@ == program_of(self),
    {
        match self {
            Backend::Bash => "bash-language-server",
            Backend::Yaml => "yaml-language-server",
        }
    }

    /// Set by the Zed extension to the resolved binary.
    pub fn path_env(self) -> (r: &'static str)
        ensures
            r@ == path_env_of(self),
    {
        match self {
            Backend::Bash => "BASH_LANGUAGE_SERVER_PATH",
            Backend::Yaml => "YAML_LANGUAGE_SERVER_PATH",
        }
    }

    pub fn args(self) -> (r: [&'static str; 1])
        ensures
            r@[0]@ == argument_of(self),
    {
        match self {
            Backend::Bash => ["start"],
            Backend::Yaml => ["--stdio"],
        }
    }

    pub fn purpose(self) -> (r: &'static str)
        ensures
            r@ == purpose_of(self),
    {
        match self {
            Backend::Bash => "script linting, hover and completion",
            Backend::Yaml => "GitLab CI key completion and schema validation",
        }
    }

    /// The program to start, given what the environment says.
    pub fn path(self, configured: Option<String>) -> (r: String)
        ensures
            r@ == path_of(
                self,
                (match configured {
                    Some(path) => Some(path@),
                    None => None,
                }),
            ),
    {
        match configured {
            Some(path) => if path.as_str().is_empty() {
                self.program().to_owned()
            } else {
                path
            },
            None => self.program().to_owned(),
        }
    }
}

// ---------------------------------------------------------------------------
// Laws
// ---------------------------------------------------------------------------

/// bash-language-server is started with `start` and is for scripts.
/// yaml-language-server is started with `--stdio` and is for keys. A path in
/// the environment takes the place of the usual program, unless it is empty.
pub proof fn law_backends_and_their_programs(backend: Backend, path: Seq<char>)
    ensures
        backend == Backend::Bash ==> program_of(backend) == "bash-language-server"@ && path_env_of(
            backend,
        ) == "BASH_LANGUAGE_SERVER_PATH"@ && argument_of(backend) == "start"@ && purpose_of(backend)
            == "script linting, hover and completion"@,
        backend == Backend::Yaml ==> program_of(backend) == "yaml-language-server"@ && path_env_of(
            backend,
        ) == "YAML_LANGUAGE_SERVER_PATH"@ && argument_of(backend) == "--stdio"@ && purpose_of(
            backend,
        ) == "GitLab CI key completion and schema validation"@,
        backend_index(Backend::Bash) == 0,
        backend_index(Backend::Yaml) == 1,
        path_of(backend, None) == program_of(backend),
        path.len() == 0 ==> path_of(backend, Some(path)) == program_of(backend),
        path.len() > 0 ==> path_of(backend, Some(path)) == path,
{
}

} // verus!
