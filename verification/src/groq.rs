//! The build-plan service: the request it is sent and the checks on what
//! comes back.

use vstd::prelude::*;

use crate::groq_key::{decrypt_groq_key, shared_key, shared_key_available};
use crate::text::{join_strings, joined, push_char, chars_of, starts_with, str_eq, str_starts_with, views};

verus! {

/// The key and model used for the service.
#[derive(Debug)]
pub struct GroqConfig {
    pub api_key: String,
    pub model: String,
}

/// The plan the service proposes for building and installing a package.
#[derive(Debug)]
pub struct BuildPlan {
    pub build: Vec<String>,
    pub install: Vec<String>,
    pub dependencies: Vec<String>,
    pub explanation: String,
}

/// A client of the build-plan service.
#[derive(Debug)]
pub struct Groq {
    pub config: GroqConfig,
}

/// What a chat request to the service is made of (its sampling
/// temperature, 0.1, is set where the request is sent).
#[derive(Debug)]
pub struct ChatRequestParts {
    pub url: String,
    pub authorization: String,
    pub model: String,
    pub system_message: String,
    pub user_message: String,
    pub max_tokens: u32,
    pub response_type: String,
}

/// The opening of the request text, up to the package name.
pub open spec fn prompt_head() -> Seq<char> {
    "You are a build system expert. Given a GitHub repository, analyze its file structure and determine how to build and install it.\n\nPackage: "@
}

/// The closing of the request text, after the file list.
pub open spec fn prompt_tail() -> Seq<char> {
    "\n\nReturn a JSON object with:\n- \"build\": list of shell commands to build the project (empty list if no build needed)\n- \"install\": list of shell commands to install the built files to {prefix}/bin or appropriate locations\n- \"dependencies\": list of system packages needed (e.g. [\"build-essential\", \"cmake\"])\n- \"explanation\": brief explanation of your analysis\n\nRules:\n- Use {prefix} as the installation prefix (e.g. \"cp mybinary {prefix}/bin/\")\n- If it's a Makefile project: \"make -j$(nproc)\" and \"make install DESTDIR={prefix}\"\n- If it's Cargo: \"cargo build --release\" and \"cp target/release/{binary} {prefix}/bin/\"\n- If it's a script: just \"cp {script} {prefix}/bin/\"\n- If it's a Go project: \"go build -o {binary}\" and \"cp {binary} {prefix}/bin/\"\n- If it's npm: \"npm install\" and \"cp -r . {prefix}/lib/node_modules/{package}\"\n- If it's Python: \"pip install .\" or \"python setup.py install\"\n- If it's CMake: \"cmake . -DCMAKE_INSTALL_PREFIX={prefix}\" then \"make -j$(nproc)\" then \"make install\"\n- For single C/C++ files: \"cc -o {binary} {file}.c\" and \"cp {binary} {prefix}/bin/\"\n- For configure-based: \"./configure --prefix={prefix}\" then \"make -j$(nproc)\" then \"make install\"\n- For static site / docs only: empty build, install is \"cp -r . {prefix}/share/{package}/\"\n"@
}

/// The tools line of the request: the preferred tools joined with ", ",
/// or "auto-detect" when there are none.
pub open spec fn tools_text(preferred_tools: Seq<String>) -> Seq<char> {
    if preferred_tools.len() == 0 {
        "auto-detect"@
    } else {
        joined(views(preferred_tools), ", "@)
    }
}

/// The request text for a package, its repository, the platform, the
/// repository's files and the preferred tools.
pub open spec fn prompt_text(
    package: Seq<char>,
    repo: Seq<char>,
    platform: Seq<char>,
    files: Seq<String>,
    preferred_tools: Seq<String>,
) -> Seq<char> {
    prompt_head() + package + "\nRepository: "@ + repo + "\nPlatform: "@ + platform
        + "\nPreferred tools: "@ + tools_text(preferred_tools) + "\n\nFiles in repository:\n"@
        + joined(views(files), "\n"@) + prompt_tail()
}

/// The characters kept of a reply: printable ASCII and ASCII whitespace.
pub open spec fn kept_char(c: char) -> bool {
    ('!' <= c && c <= '~') || c == ' ' || c == '\t' || c == '\n' || c == '\x0C' || c == '\r'
}

/// The reply with every other character removed.
pub open spec fn cleaned(s: Seq<char>) -> Seq<char>
    decreases s.len(),
{
    if s.len() == 0 {
        Seq::empty()
    } else if kept_char(s.last()) {
        cleaned(s.drop_last()).push(s.last())
    } else {
        cleaned(s.drop_last())
    }
}

/// A relative path left out of the listing sent to the service: hidden
/// entries and build or dependency directories.
pub open spec fn skipped_path(relative: Seq<char>) -> bool {
    starts_with(relative, "."@) || relative == "target"@ || relative == "node_modules"@
        || starts_with(relative, "target/"@) || starts_with(relative, "node_modules/"@)
}

impl Groq {
    /// A client using `env_key` (the key from the environment, if set) or
    /// else the shared key; none when neither is available.
    pub fn from_env_key(env_key: Option<String>) -> (r: Option<Groq>)
        ensures
            env_key matches Some(k) ==> (r matches Some(g) && g.config.api_key == k),
            env_key is None ==> (r is Some <==> shared_key_available()),
            env_key is None ==> (r matches Some(g) ==> g.config.api_key@ == shared_key()),
            r matches Some(g) ==> g.config.model@ == "llama-3.3-70b-versatile"@,
    {
        let key = match env_key {
            Some(k) => k,
            None => match decrypt_groq_key() {
                Some(k) => k,
                None => return None,
            },
        };
        Some(Groq { config: GroqConfig { api_key: key, model: String::from_str("llama-3.3-70b-versatile") } })
    }

    /// The chat request asking for a plan with request text `prompt`: sent
    /// to the service's chat endpoint with this client's key and model, a
    /// system message asking for JSON only, at most 2000 tokens, and a JSON
    /// object as the reply format.
    pub fn chat_request(&self, prompt: String) -> (r: ChatRequestParts)
        ensures
            r.url@ == "https://api.groq.com/openai/v1/chat/completions"@,
            r.authorization@ == "Bearer "@ + self.config.api_key@,
            r.model@ == self.config.model@,
            r.system_message@ == "You are a build system expert. Respond only with valid JSON."@,
            r.user_message@ == prompt@,
            r.max_tokens == 2000,
            r.response_type@ == "json_object"@,
    {
        let mut authorization = String::from_str("Bearer ");
        authorization.append(self.config.api_key.as_str());
        ChatRequestParts {
            url: String::from_str("https://api.groq.com/openai/v1/chat/completions"),
            authorization,
            model: self.config.model.clone(),
            system_message: String::from_str("You are a build system expert. Respond only with valid JSON."),
            user_message: prompt,
            max_tokens: 2000,
            response_type: String::from_str("json_object"),
        }
    }

    /// The request text sent for a package.
    pub fn build_prompt(
        package_name: &str,
        repo_url: &str,
        file_list: &Vec<String>,
        platform: &str,
        preferred_tools: &Vec<String>,
    ) -> (r: String)
        ensures
            r@ == prompt_text(package_name@, repo_url@, platform@, file_list@, preferred_tools@),
    {
        let files = join_strings(file_list, "\n");
        let tools = if preferred_tools.len() == 0 {
            String::from_str("auto-detect")
        } else {
            join_strings(preferred_tools, ", ")
        };
        let mut r = String::from_str("You are a build system expert. Given a GitHub repository, analyze its file structure and determine how to build and install it.\n\nPackage: ");
        r.append(package_name);
        r.append("\nRepository: ");
        r.append(repo_url);
        r.append("\nPlatform: ");
        r.append(platform);
        r.append("\nPreferred tools: ");
        r.append(tools.as_str());
        r.append("\n\nFiles in repository:\n");
        r.append(files.as_str());
        r.append("\n\nReturn a JSON object with:\n- \"build\": list of shell commands to build the project (empty list if no build needed)\n- \"install\": list of shell commands to install the built files to {prefix}/bin or appropriate locations\n- \"dependencies\": list of system packages needed (e.g. [\"build-essential\", \"cmake\"])\n- \"explanation\": brief explanation of your analysis\n\nRules:\n- Use {prefix} as the installation prefix (e.g. \"cp mybinary {prefix}/bin/\")\n- If it's a Makefile project: \"make -j$(nproc)\" and \"make install DESTDIR={prefix}\"\n- If it's Cargo: \"cargo build --release\" and \"cp target/release/{binary} {prefix}/bin/\"\n- If it's a script: just \"cp {script} {prefix}/bin/\"\n- If it's a Go project: \"go build -o {binary}\" and \"cp {binary} {prefix}/bin/\"\n- If it's npm: \"npm install\" and \"cp -r . {prefix}/lib/node_modules/{package}\"\n- If it's Python: \"pip install .\" or \"python setup.py install\"\n- If it's CMake: \"cmake . -DCMAKE_INSTALL_PREFIX={prefix}\" then \"make -j$(nproc)\" then \"make install\"\n- For single C/C++ files: \"cc -o {binary} {file}.c\" and \"cp {binary} {prefix}/bin/\"\n- For configure-based: \"./configure --prefix={prefix}\" then \"make -j$(nproc)\" then \"make install\"\n- For static site / docs only: empty build, install is \"cp -r . {prefix}/share/{package}/\"\n");
        r
    }

    /// The reply with every character that is neither printable ASCII nor
    /// ASCII whitespace removed.
    pub fn clean_response(content: &str) -> (r: String)
        ensures
            r@ == cleaned(content@),
    {
        let cs = chars_of(content);
        let mut r = String::new();
        let mut i: usize = 0;
        while i < cs.len()
            invariant
                i <= cs@.len(),
                cs@ == content@,
                r@ == cleaned(cs@.take(i as int)),
            decreases cs@.len() - i,
        {
            let c = cs[i];
            proof {
                assert(cs@.take(i + 1).drop_last() =~= cs@.take(i as int));
            }
            if ('!' <= c && c <= '~') || c == ' ' || c == '\t' || c == '\n' || c == '\x0C' || c == '\r' {
                push_char(&mut r, c);
            }
            i = i + 1;
        }
        assert(cs@.take(cs@.len() as int) =~= cs@);
        r
    }

    /// Whether the relative path is left out of the listing.
    pub fn is_skipped(relative: &str) -> (r: bool)
        ensures
            r == skipped_path(relative@),
    {
        str_starts_with(relative, ".") || str_eq(relative, "target") || str_eq(relative, "node_modules")
            || str_starts_with(relative, "target/") || str_starts_with(relative, "node_modules/")
    }
}

} // verus!
