//! The configuration of a development container.

use vstd::prelude::*;
use vstd::string::*;

use crate::error::{failure, BondarError, ErrorView};
use crate::expand::Workspace;
use crate::json::Json;
use crate::maps::{inserted, lemma_inserted_lookup, lookup, EnvMap};
use crate::text::{
    chars_of, is_alnum, lemma_seek, lemma_seek_is, lemma_seek_pat, occurs, opt_text, seek,
    seek_char, seek_match, seek_pat, stands_at, strip_prefix, text_of, trim, trimmed,
    without_prefix,
};

verus! {

/// A development container as `devcontainer.json` describes it. Maps are lists of entries in the
/// order in which they are walked.
#[derive(Debug, PartialEq)]
pub struct DevContainerConfig {
    pub name: Option<String>,
    pub image: Option<String>,
    pub build: Option<BuildConfig>,
    pub docker_compose_file: Option<ComposeFileValue>,
    pub service: Option<String>,
    pub run_services: Vec<String>,
    pub workspace_folder: Option<String>,
    pub workspace_mount: Option<String>,
    pub run_args: Vec<String>,
    pub mounts: Vec<MountValue>,
    pub forward_ports: Vec<ForwardPort>,
    pub container_env: EnvMap,
    /// Variables of the processes run in the container; an entry without a value is left unset.
    pub remote_env: Vec<(String, Option<String>)>,
    pub secrets: Option<Vec<(String, Json)>>,
    pub remote_user: Option<String>,
    pub container_user: Option<String>,
    pub override_command: Option<bool>,
    pub customizations: Option<Json>,
    pub app_port: Option<AppPortValue>,
    pub privileged: Option<bool>,
    pub cap_add: Vec<String>,
    pub security_opt: Vec<String>,
    pub init: Option<bool>,
    pub features: Option<Vec<(String, Json)>>,
    pub ports_attributes: Option<Json>,
    pub other_ports_attributes: Option<Json>,
    pub override_feature_install_order: Option<Vec<String>>,
    pub user_env_probe: Option<String>,
    pub initialize_command: Option<Json>,
    pub on_create_command: Option<Json>,
    pub update_content_command: Option<Json>,
    pub post_create_command: Option<Json>,
    pub post_start_command: Option<Json>,
    pub post_attach_command: Option<Json>,
    pub wait_for: Option<String>,
    pub shutdown_action: Option<String>,
    pub update_remote_user_uid: Option<bool>,
    pub host_requirements: Option<Json>,
    /// The members that have no field of their own.
    pub extra: Vec<(String, Json)>,
}

#[derive(Debug, Clone, PartialEq)]
pub struct BuildConfig {
    pub dockerfile: Option<String>,
    pub context: Option<String>,
    pub args: EnvMap,
    pub options: Vec<String>,
    pub target: Option<String>,
    pub cache_from: Option<CacheFromValue>,
}

#[derive(Debug, Clone, PartialEq)]
pub enum CacheFromValue {
    Single(String),
    Multiple(Vec<String>),
}

#[derive(Debug, Clone, PartialEq)]
pub enum ComposeFileValue {
    Single(String),
    Multiple(Vec<String>),
}

#[derive(Debug, Clone, PartialEq)]
pub enum MountValue {
    String(String),
    Object(MountObject),
}

#[derive(Debug, Clone, PartialEq)]
pub struct MountObject {
    pub source: Option<String>,
    pub target: Option<String>,
    pub mount_type: Option<String>,
    pub readonly: Option<bool>,
}

#[derive(Debug, Clone, PartialEq)]
pub enum ForwardPort {
    Number(u16),
    Text(String),
}

#[derive(Debug, Clone, PartialEq)]
pub enum AppPortValue {
    Single(PortValue),
    Multiple(Vec<PortValue>),
}

#[derive(Debug, Clone, PartialEq)]
pub enum PortValue {
    Number(u16),
    Text(String),
}

impl DevContainerConfig {
    /// The configuration of an empty document.
    pub open spec fn is_empty_document(&self) -> bool {
        &&& self.name is None && self.image is None && self.build is None
        &&& self.docker_compose_file is None && self.service is None
        &&& self.run_services@.len() == 0
        &&& self.workspace_folder is None && self.workspace_mount is None
        &&& self.run_args@.len() == 0 && self.mounts@.len() == 0 && self.forward_ports@.len() == 0
        &&& self.container_env@.len() == 0 && self.remote_env@.len() == 0
        &&& self.secrets is None && self.remote_user is None && self.container_user is None
        &&& self.override_command is None && self.customizations is None && self.app_port is None
        &&& self.privileged is None && self.cap_add@.len() == 0 && self.security_opt@.len() == 0
        &&& self.init is None && self.features is None
        &&& self.ports_attributes is None && self.other_ports_attributes is None
        &&& self.override_feature_install_order is None && self.user_env_probe is None
        &&& self.initialize_command is None && self.on_create_command is None
        &&& self.update_content_command is None && self.post_create_command is None
        &&& self.post_start_command is None && self.post_attach_command is None
        &&& self.wait_for is None && self.shutdown_action is None
        &&& self.update_remote_user_uid is None && self.host_requirements is None
        &&& self.extra@.len() == 0
    }
}

impl Default for DevContainerConfig {
    fn default() -> (res: DevContainerConfig)
        ensures
            res.is_empty_document(),
    {
        DevContainerConfig {
            name: None,
            image: None,
            build: None,
            docker_compose_file: None,
            service: None,
            run_services: Vec::new(),
            workspace_folder: None,
            workspace_mount: None,
            run_args: Vec::new(),
            mounts: Vec::new(),
            forward_ports: Vec::new(),
            container_env: EnvMap::new(),
            remote_env: Vec::new(),
            secrets: None,
            remote_user: None,
            container_user: None,
            override_command: None,
            customizations: None,
            app_port: None,
            privileged: None,
            cap_add: Vec::new(),
            security_opt: Vec::new(),
            init: None,
            features: None,
            ports_attributes: None,
            other_ports_attributes: None,
            override_feature_install_order: None,
            user_env_probe: None,
            initialize_command: None,
            on_create_command: None,
            update_content_command: None,
            post_create_command: None,
            post_start_command: None,
            post_attach_command: None,
            wait_for: None,
            shutdown_action: None,
            update_remote_user_uid: None,
            host_requirements: None,
            extra: Vec::new(),
        }
    }
}

// ---------------------------------------------------------------------------------------------
// Validation

/// Whether a text is empty or white space only.
pub open spec fn blank(s: Seq<char>) -> bool {
    trimmed(s).len() == 0
}

fn is_blank(s: &str) -> (res: bool)
    ensures
        res == blank(s@),
{
    let t = trim(s);
    t.as_str().unicode_len() == 0
}

pub open spec fn blank_option(o: Option<String>) -> bool {
    o matches Some(s) && blank(s@)
}

fn is_blank_option(o: &Option<String>) -> (res: bool)
    ensures
        res == blank_option(*o),
{
    match o {
        Some(s) => is_blank(s.as_str()),
        None => false,
    }
}

pub open spec fn has_alnum(s: Seq<char>) -> bool {
    exists|i: int| 0 <= i < s.len() && is_alnum(#[trigger] s[i])
}

fn contains_alnum(s: &str) -> (res: bool)
    ensures
        res == has_alnum(s@),
{
    let v = chars_of(s);
    let mut i: usize = 0;
    while i < v.len()
        invariant
            v@ == s@,
            i <= v@.len(),
            forall|k: int| 0 <= k < i ==> !is_alnum(#[trigger] s@[k]),
        decreases v@.len() - i,
    {
        if v[i].is_alphanumeric() {
            assert(is_alnum(s@[i as int]));
            return true;
        }
        i = i + 1;
    }
    false
}

/// Whether a list of compose files is empty or names a blank file.
pub open spec fn blank_compose_file(f: ComposeFileValue) -> bool {
    match f {
        ComposeFileValue::Single(s) => blank(s@),
        ComposeFileValue::Multiple(v) => v@.len() == 0 || exists|i: int|
            0 <= i < v@.len() && blank((#[trigger] v@[i])@),
    }
}

fn is_blank_compose_file(f: &ComposeFileValue) -> (res: bool)
    ensures
        res == blank_compose_file(*f),
{
    match f {
        ComposeFileValue::Single(s) => is_blank(s.as_str()),
        ComposeFileValue::Multiple(v) => {
            if v.len() == 0 {
                return true;
            }
            let mut i: usize = 0;
            while i < v.len()
                invariant
                    *f == ComposeFileValue::Multiple(*v),
                    i <= v@.len(),
                    forall|k: int| 0 <= k < i ==> !blank((#[trigger] v@[k])@),
                decreases v@.len() - i,
            {
                if is_blank(v[i].as_str()) {
                    assert(blank(v@[i as int]@));
                    return true;
                }
                i = i + 1;
            }
            false
        },
    }
}

/// Whether an environment variable of the configuration has a blank name.
pub open spec fn blank_env_name(c: DevContainerConfig) -> bool {
    ||| exists|i: int| 0 <= i < c.container_env@.len() && blank((#[trigger] c.container_env@[i]).0)
    ||| exists|i: int| 0 <= i < c.remote_env@.len() && blank((#[trigger] c.remote_env@[i]).0@)
}

fn has_blank_env_name(c: &DevContainerConfig) -> (res: bool)
    ensures
        res == blank_env_name(*c),
{
    let mut i: usize = 0;
    while i < c.container_env.len()
        invariant
            i <= c.container_env@.len(),
            forall|k: int| 0 <= k < i ==> !blank((#[trigger] c.container_env@[k]).0),
        decreases c.container_env@.len() - i,
    {
        if is_blank(c.container_env.key(i)) {
            assert(blank(c.container_env@[i as int].0));
            return true;
        }
        i = i + 1;
    }
    let mut j: usize = 0;
    while j < c.remote_env.len()
        invariant
            j <= c.remote_env@.len(),
            forall|k: int| 0 <= k < c.container_env@.len() ==> !blank((#[trigger] c.container_env@[k]).0),
            forall|k: int| 0 <= k < j ==> !blank((#[trigger] c.remote_env@[k]).0@),
        decreases c.remote_env@.len() - j,
    {
        if is_blank(c.remote_env[j].0.as_str()) {
            assert(blank(c.remote_env@[j as int].0@));
            return true;
        }
        j = j + 1;
    }
    false
}

/// What is wrong with a configuration, where something is: the first rule that it breaks.
pub open spec fn config_error(c: DevContainerConfig) -> Option<Seq<char>> {
    if c.image is None && c.build is None && c.docker_compose_file is None {
        Some("Either 'image', 'build' or 'dockerComposeFile' must be specified"@)
    } else if c.image is Some && c.build is Some {
        Some("'image' and 'build' cannot both be specified"@)
    } else if blank_option(c.name) {
        Some("'name' must not be empty"@)
    } else if c.name matches Some(n) && !has_alnum(trimmed(n@)) {
        Some("'name' must contain at least one alphanumeric character"@)
    } else if blank_option(c.image) {
        Some("'image' must not be empty"@)
    } else if c.build matches Some(b) && blank_option(b.dockerfile) {
        Some("'build.dockerfile' must not be empty"@)
    } else if c.docker_compose_file is Some && c.service is None {
        Some("'service' must be specified when using 'dockerComposeFile'"@)
    } else if c.docker_compose_file is Some && (c.image is Some || c.build is Some) {
        Some("'dockerComposeFile' cannot be combined with 'image' or 'build'"@)
    } else if c.workspace_mount is Some && c.workspace_folder is None {
        Some("'workspaceFolder' must be specified when using 'workspaceMount'"@)
    } else if blank_option(c.workspace_folder) {
        Some("'workspaceFolder' must not be empty"@)
    } else if c.docker_compose_file matches Some(f) && blank_compose_file(f) {
        Some("'dockerComposeFile' must not be empty"@)
    } else if blank_option(c.service) {
        Some("'service' must not be empty"@)
    } else if blank_env_name(c) {
        Some("'containerEnv'/'remoteEnv' keys must not be empty"@)
    } else {
        None
    }
}

fn config_failure(message: &str) -> (res: Result<(), BondarError>)
    ensures
        failure(res) == Some(ErrorView::Config(message@)),
{
    Err(BondarError::Config(message.to_owned()))
}

impl DevContainerConfig {
    /// Whether the configuration obeys the rules; otherwise the first rule that it breaks.
    pub fn validate(&self) -> (res: Result<(), BondarError>)
        ensures
            failure(res) == (match config_error(*self) {
                Some(m) => Some(ErrorView::Config(m)),
                None => None,
            }),
    {
        if self.image.is_none() && self.build.is_none() && self.docker_compose_file.is_none() {
            return config_failure(
                "Either 'image', 'build' or 'dockerComposeFile' must be specified",
            );
        }
        if self.image.is_some() && self.build.is_some() {
            return config_failure("'image' and 'build' cannot both be specified");
        }
        if let Some(n) = &self.name {
            let trimmed = trim(n.as_str());
            if trimmed.as_str().unicode_len() == 0 {
                return config_failure("'name' must not be empty");
            }
            if !contains_alnum(trimmed.as_str()) {
                return config_failure("'name' must contain at least one alphanumeric character");
            }
        }
        if is_blank_option(&self.image) {
            return config_failure("'image' must not be empty");
        }
        if let Some(build) = &self.build {
            if is_blank_option(&build.dockerfile) {
                return config_failure("'build.dockerfile' must not be empty");
            }
        }
        if self.docker_compose_file.is_some() && self.service.is_none() {
            return config_failure("'service' must be specified when using 'dockerComposeFile'");
        }
        if self.docker_compose_file.is_some() && (self.image.is_some() || self.build.is_some()) {
            return config_failure("'dockerComposeFile' cannot be combined with 'image' or 'build'");
        }
        if self.workspace_mount.is_some() && self.workspace_folder.is_none() {
            return config_failure("'workspaceFolder' must be specified when using 'workspaceMount'");
        }
        if is_blank_option(&self.workspace_folder) {
            return config_failure("'workspaceFolder' must not be empty");
        }
        if let Some(f) = &self.docker_compose_file {
            if is_blank_compose_file(f) {
                return config_failure("'dockerComposeFile' must not be empty");
            }
        }
        if is_blank_option(&self.service) {
            return config_failure("'service' must not be empty");
        }
        if has_blank_env_name(self) {
            return config_failure("'containerEnv'/'remoteEnv' keys must not be empty");
        }
        Ok(())
    }

    pub open spec fn target(&self) -> Seq<char> {
        match self.workspace_folder {
            Some(s) => s@,
            None => "/workspace"@,
        }
    }

    /// The workspace folder inside the container for configurations with an image or a
    /// Dockerfile. Compose configurations have `/` as their default instead.
    pub fn workspace_folder_or_default(&self) -> (res: String)
        ensures
            res@ == self.target(),
    {
        match &self.workspace_folder {
            Some(s) => s.clone(),
            None => "/workspace".to_owned(),
        }
    }

    /// The workspace folder inside the container as references stand for it. With Docker Compose
    /// the default is the root directory.
    pub open spec fn reference_target(&self) -> Seq<char> {
        if self.docker_compose_file is Some && self.workspace_folder is None {
            "/"@
        } else {
            self.target()
        }
    }

    pub fn workspace_target(&self) -> (res: String)
        ensures
            res@ == self.reference_target(),
    {
        if self.docker_compose_file.is_some() && self.workspace_folder.is_none() {
            "/".to_owned()
        } else {
            self.workspace_folder_or_default()
        }
    }

    /// The name of the container: from the name in the configuration, or else from the name of the
    /// workspace folder.
    pub fn container_name(&self, workspace: &Workspace) -> (res: String)
        ensures
            res@ == container_name_of(*self, *workspace),
    {
        let sanitized = match &self.name {
            Some(name) => sanitize_name(name.as_str()),
            None => match &workspace.basename {
                Some(basename) => sanitize_name(basename.as_str()),
                None => sanitize_name("workspace"),
            },
        };
        "bondar-".to_owned().concat(sanitized.as_str())
    }

    /// The variables of `remoteEnv` that have a value.
    pub fn remote_env_resolved(&self) -> (res: EnvMap)
        ensures
            res@ == set_variables(self.remote_env@),
    {
        let mut out = EnvMap::new();
        let mut i: usize = 0;
        assert(self.remote_env@.take(0) =~= Seq::empty());
        while i < self.remote_env.len()
            invariant
                i <= self.remote_env@.len(),
                out@ == set_variables(self.remote_env@.take(i as int)),
            decreases self.remote_env@.len() - i,
        {
            let ghost before = self.remote_env@.take(i as int);
            assert(self.remote_env@.take(i + 1).drop_last() =~= before);
            if let Some(value) = &self.remote_env[i].1 {
                out.insert(self.remote_env[i].0.as_str(), value.as_str());
            }
            i = i + 1;
        }
        assert(self.remote_env@.take(i as int) =~= self.remote_env@);
        out
    }
}

/// The entries that have a value, bound one after the other.
pub open spec fn set_variables(v: Seq<(String, Option<String>)>) -> Seq<(Seq<char>, Seq<char>)>
    decreases v.len(),
{
    if v.len() == 0 {
        Seq::empty()
    } else {
        let before = set_variables(v.drop_last());
        match v.last().1 {
            Some(value) => inserted(before, v.last().0@, value@),
            None => before,
        }
    }
}

/// The text with a dash in place of every character that is neither a letter nor a digit.
pub open spec fn sanitized(s: Seq<char>) -> Seq<char> {
    Seq::new(
        s.len(),
        |i: int|
            if is_alnum(s[i]) {
                s[i]
            } else {
                '-'
            },
    )
}

fn sanitize_name(s: &str) -> (res: String)
    ensures
        res@ == sanitized(s@),
{
    let v = chars_of(s);
    let mut out = String::new();
    let mut i: usize = 0;
    while i < v.len()
        invariant
            v@ == s@,
            i <= v@.len(),
            out@ == sanitized(s@).take(i as int),
        decreases v@.len() - i,
    {
        if v[i].is_alphanumeric() {
            out.push(v[i]);
        } else {
            out.push('-');
        }
        assert(sanitized(s@).take(i + 1) =~= sanitized(s@).take(i as int).push(
            sanitized(s@)[i as int],
        ));
        i = i + 1;
    }
    assert(sanitized(s@).take(i as int) =~= sanitized(s@));
    out
}

pub open spec fn container_name_of(c: DevContainerConfig, workspace: Workspace) -> Seq<char> {
    "bondar-"@ + sanitized(
        match c.name {
            Some(name) => name@,
            None => match workspace.basename {
                Some(basename) => basename@,
                None => "workspace"@,
            },
        },
    )
}

// ---------------------------------------------------------------------------------------------
// Reading the configuration file

/// Which configuration file of a workspace is used, given whether there is a file at each of the
/// two places: the path below the workspace folder.
pub open spec fn config_path(in_folder: bool, at_root: bool) -> Option<Seq<char>> {
    if in_folder {
        Some(".devcontainer/devcontainer.json"@)
    } else if at_root {
        Some(".devcontainer.json"@)
    } else {
        None
    }
}

pub fn find_config_path(in_folder: bool, at_root: bool) -> (res: Option<String>)
    ensures
        opt_text(res) == config_path(in_folder, at_root),
{
    if in_folder {
        Some(".devcontainer/devcontainer.json".to_owned())
    } else if at_root {
        Some(".devcontainer.json".to_owned())
    } else {
        None
    }
}

/// The end of the string literal whose content starts at `i`: the position after its closing
/// quote, or the length of the text where it has none.
pub open spec fn literal_end(s: Seq<char>, i: int) -> int
    decreases s.len() - i + 1,
{
    if i < 0 || i >= s.len() {
        s.len() as int
    } else if s[i] == '"' {
        i + 1
    } else if s[i] == '\\' {
        literal_end(s, i + 2)
    } else {
        literal_end(s, i + 1)
    }
}

/// The end of the block comment whose content starts at `i`.
pub open spec fn block_end(s: Seq<char>, i: int) -> int {
    let at = seek_pat(s, "*/"@, i);
    if at < s.len() {
        at + 2
    } else {
        s.len() as int
    }
}

/// The text from position `i` on without its comments. String literals are kept as they are; a
/// line comment ends before the end of its line, a block comment after the first `*/`.
pub open spec fn without_comments(s: Seq<char>, i: int) -> Seq<char>
    decreases s.len() - i,
{
    if i < 0 || i >= s.len() {
        Seq::empty()
    } else if s[i] == '"' && i < literal_end(s, i + 1) <= s.len() {
        s.subrange(i, literal_end(s, i + 1)) + without_comments(s, literal_end(s, i + 1))
    } else if s[i] == '/' && i + 1 < s.len() && s[i + 1] == '/' && i < seek(s, '\n', i + 2)
        <= s.len() {
        without_comments(s, seek(s, '\n', i + 2))
    } else if s[i] == '/' && i + 1 < s.len() && s[i + 1] == '*' && i < block_end(s, i + 2)
        <= s.len() {
        without_comments(s, block_end(s, i + 2))
    } else {
        seq![s[i]] + without_comments(s, i + 1)
    }
}

fn skip_literal(v: &Vec<char>, from: usize) -> (end: usize)
    requires
        from <= v@.len(),
    ensures
        end == literal_end(v@, from as int),
        from <= end <= v@.len(),
{
    let n: usize = v.len();
    let mut i: usize = from;
    while i < n
        invariant
            n == v@.len(),
            from <= i <= n,
            literal_end(v@, from as int) == literal_end(v@, i as int),
        decreases n - i,
    {
        if v[i] == '"' {
            return i + 1;
        }
        if v[i] == '\\' {
            if n - i < 2 {
                assert(literal_end(v@, i + 2) == n);
                return n;
            }
            i = i + 2;
        } else {
            i = i + 1;
        }
    }
    n
}

/// Removes the line and block comments of a JSON document with comments.
pub fn strip_json_comments(input: &str) -> (res: String)
    ensures
        res@ == without_comments(input@, 0),
{
    let v = chars_of(input);
    let close = chars_of("*/");
    let n: usize = v.len();
    let mut out = String::new();
    let mut i: usize = 0;
    proof {
        reveal_strlit("*/");
    }
    while i < n
        invariant
            v@ == input@,
            n == v@.len(),
            close@ == "*/"@,
            close@.len() == 2,
            i <= n,
            without_comments(input@, 0) == out@ + without_comments(input@, i as int),
        decreases n - i,
    {
        let ghost before = out@;
        if v[i] == '"' {
            let end: usize = skip_literal(&v, i + 1);
            let literal = text_of(&v, i, end);
            out.append(literal.as_str());
            proof {
                let tail = without_comments(input@, end as int);
                assert(before + (input@.subrange(i as int, end as int) + tail) =~= out@ + tail);
            }
            i = end;
        } else if v[i] == '/' && n - i >= 2 && v[i + 1] == '/' {
            i = seek_char(&v, '\n', i + 2);
        } else if v[i] == '/' && n - i >= 2 && v[i + 1] == '*' {
            let at: usize = seek_match(&v, &close, i + 2);
            i = if at < n {
                at + 2
            } else {
                n
            };
        } else {
            out.push(v[i]);
            proof {
                let tail = without_comments(input@, i + 1);
                assert(before + (seq![input@[i as int]] + tail) =~= out@ + tail);
            }
            i = i + 1;
        }
    }
    assert(out@ + Seq::<char>::empty() =~= out@);
    out
}

/// The JSON text of a configuration file: without a byte order mark and without comments.
pub open spec fn config_text(raw: Seq<char>) -> Seq<char> {
    without_comments(
        match without_prefix(raw, "\u{feff}"@) {
            Some(s) => s,
            None => raw,
        },
        0,
    )
}

pub fn prepare_config_text(raw: &str) -> (res: String)
    ensures
        res@ == config_text(raw@),
{
    match strip_prefix(raw, "\u{feff}") {
        Some(s) => strip_json_comments(s.as_str()),
        None => strip_json_comments(raw),
    }
}

/// The error for a workspace without a configuration file.
pub fn missing_config(workspace: &str) -> (res: BondarError)
    ensures
        res@ == ErrorView::NotFound("devcontainer.json not found in "@ + workspace@),
{
    BondarError::NotFound("devcontainer.json not found in ".to_owned().concat(workspace))
}

/// The error for a configuration file whose path cannot be resolved.
pub fn unresolved_config(path: &str, reason: &str) -> (res: BondarError)
    ensures
        res@ == ErrorView::NotFound("Cannot resolve config path "@ + path@ + ": "@ + reason@),
{
    BondarError::NotFound(
        "Cannot resolve config path ".to_owned().concat(path).concat(": ").concat(reason),
    )
}

// ---------------------------------------------------------------------------------------------
// Laws

proof fn lemma_no_slash(s: Seq<char>, i: int)
    requires
        !s.contains('/'),
        0 <= i <= s.len(),
    ensures
        without_comments(s, i) == s.skip(i),
    decreases s.len() - i,
{
    if i < s.len() {
        assert(s.contains(s[i]));
        if s[i] == '"' {
            let end = literal_end(s, i + 1);
            lemma_literal_end(s, i + 1);
            lemma_no_slash(s, end);
            assert(s.skip(i) =~= s.subrange(i, end) + s.skip(end));
        } else {
            lemma_no_slash(s, i + 1);
            assert(s.skip(i) =~= seq![s[i]] + s.skip(i + 1));
        }
    } else {
        assert(s.skip(i) =~= Seq::empty());
    }
}

proof fn lemma_literal_end(s: Seq<char>, i: int)
    requires
        0 <= i <= s.len(),
    ensures
        i <= literal_end(s, i) <= s.len(),
    decreases s.len() - i,
{
    if i < s.len() && s[i] != '"' {
        if s[i] == '\\' {
            if i + 2 <= s.len() {
                lemma_literal_end(s, i + 2);
            }
        } else {
            lemma_literal_end(s, i + 1);
        }
    }
}

/// A document without a slash has no comments: it stays as it is.
pub proof fn law_text_without_slash_stays(s: Seq<char>)
    requires
        !s.contains('/'),
    ensures
        without_comments(s, 0) == s,
{
    lemma_no_slash(s, 0);
    assert(s.skip(0) =~= s);
}

/// Whether the string literal whose content starts at `i` is closed by the last character.
pub open spec fn closes(literal: Seq<char>, i: int) -> bool
    decreases literal.len() - i + 1,
{
    if i < 0 || i >= literal.len() {
        false
    } else if literal[i] == '"' {
        i + 1 == literal.len()
    } else if literal[i] == '\\' {
        closes(literal, i + 2)
    } else {
        closes(literal, i + 1)
    }
}

proof fn lemma_closes(literal: Seq<char>, rest: Seq<char>, i: int)
    requires
        closes(literal, i),
    ensures
        literal_end(literal + rest, i) == literal.len(),
    decreases literal.len() - i + 1,
{
    assert((literal + rest)[i] == literal[i]);
    if literal[i] == '"' {
    } else if literal[i] == '\\' {
        lemma_closes(literal, rest, i + 2);
    } else {
        lemma_closes(literal, rest, i + 1);
    }
}

proof fn lemma_seek_shift(a: Seq<char>, s: Seq<char>, c: char, i: int)
    requires
        0 <= i <= s.len(),
    ensures
        seek(a + s, c, a.len() + i) == a.len() + seek(s, c, i),
    decreases s.len() - i,
{
    if i < s.len() && s[i] != c {
        lemma_seek_shift(a, s, c, i + 1);
    }
}

proof fn lemma_seek_pat_shift(a: Seq<char>, s: Seq<char>, pat: Seq<char>, i: int)
    requires
        0 <= i <= s.len(),
    ensures
        seek_pat(a + s, pat, a.len() + i) == a.len() + seek_pat(s, pat, i),
    decreases s.len() - i,
{
    if i < s.len() {
        if i + pat.len() <= s.len() {
            assert((a + s).subrange(a.len() + i, a.len() + i + pat.len()) =~= s.subrange(
                i,
                i + pat.len(),
            ));
        }
        assert(stands_at(a + s, pat, a.len() + i) == stands_at(s, pat, i));
        if !stands_at(s, pat, i) {
            lemma_seek_pat_shift(a, s, pat, i + 1);
        }
    }
}

proof fn lemma_literal_shift(a: Seq<char>, s: Seq<char>, i: int)
    requires
        0 <= i <= s.len(),
    ensures
        literal_end(a + s, a.len() + i) == a.len() + literal_end(s, i),
    decreases s.len() - i,
{
    if i < s.len() && s[i] != '"' {
        if s[i] == '\\' {
            if i + 2 <= s.len() {
                lemma_literal_shift(a, s, i + 2);
            } else {
                assert(literal_end(s, i + 2) == s.len());
                assert(literal_end(a + s, a.len() + i + 2) == (a + s).len());
            }
        } else {
            lemma_literal_shift(a, s, i + 1);
        }
    }
}

/// What stands before a position outside of strings and comments does not matter for the rest.
proof fn lemma_shift(a: Seq<char>, s: Seq<char>, i: int)
    requires
        0 <= i <= s.len(),
    ensures
        without_comments(a + s, a.len() + i) == without_comments(s, i),
    decreases s.len() - i,
{
    if i < s.len() {
        let t = a + s;
        let n = a.len() as int;
        if s[i] == '"' {
            lemma_literal_end(s, i + 1);
            lemma_literal_shift(a, s, i + 1);
            let end = literal_end(s, i + 1);
            assert(t.subrange(n + i, n + end) =~= s.subrange(i, end));
            lemma_shift(a, s, end);
        } else if s[i] == '/' && i + 1 < s.len() && s[i + 1] == '/' {
            lemma_seek(s, '\n', i + 2);
            lemma_seek_shift(a, s, '\n', i + 2);
            lemma_shift(a, s, seek(s, '\n', i + 2));
        } else if s[i] == '/' && i + 1 < s.len() && s[i + 1] == '*' {
            reveal_strlit("*/");
            lemma_seek_pat(s, "*/"@, i + 2);
            lemma_seek_pat_shift(a, s, "*/"@, i + 2);
            lemma_shift(a, s, block_end(s, i + 2));
        } else {
            lemma_shift(a, s, i + 1);
        }
    }
}

/// A string literal is kept as it is, whatever it holds, and what follows it is read on its own.
pub proof fn law_string_literals_stay(literal: Seq<char>, rest: Seq<char>)
    requires
        literal.len() > 0,
        literal[0] == '"',
        closes(literal, 1),
    ensures
        without_comments(literal + rest, 0) == literal + without_comments(rest, 0),
{
    let s = literal + rest;
    lemma_closes(literal, rest, 1);
    assert(s.subrange(0, literal.len() as int) =~= literal);
    lemma_shift(literal, rest, 0);
}

/// A literal that starts at `start` either is closed at its end, or is not closed at all and
/// reaches to the end of the text.
proof fn lemma_literal_kinds(s: Seq<char>, start: int, i: int)
    requires
        0 <= start < i <= s.len(),
    ensures
        ({
            let end = literal_end(s, i);
            let literal = s.subrange(start, end);
            i <= end <= s.len() && (closes(literal, i - start) || (end == s.len() && literal_end(
                literal,
                i - start,
            ) == literal.len()))
        }),
    decreases s.len() - i,
{
    lemma_literal_end(s, i);
    let end = literal_end(s, i);
    let literal = s.subrange(start, end);
    if i < s.len() && s[i] != '"' {
        if s[i] == '\\' {
            if i + 2 <= s.len() {
                lemma_literal_kinds(s, start, i + 2);
            } else {
                assert(literal_end(s, i + 2) == s.len());
                assert(literal_end(literal, i - start + 2) == literal.len());
            }
        } else {
            lemma_literal_kinds(s, start, i + 1);
        }
        if i < end {
            assert(literal[i - start] == s[i]);
        }
    } else if i < s.len() {
        assert(literal[i - start] == s[i]);
    }
}

proof fn lemma_no_comments_left(s: Seq<char>, i: int)
    requires
        0 <= i <= s.len(),
    ensures
        without_comments(without_comments(s, i), 0) == without_comments(s, i),
    decreases s.len() - i,
{
    let t = without_comments(s, i);
    if i < s.len() {
        if s[i] == '"' {
            lemma_literal_kinds(s, i, i + 1);
            let end = literal_end(s, i + 1);
            let literal = s.subrange(i, end);
            let rest = without_comments(s, end);
            lemma_no_comments_left(s, end);
            assert(literal[0] == '"');
            if closes(literal, 1) {
                law_string_literals_stay(literal, rest);
            } else {
                assert(rest =~= Seq::empty());
                assert(t =~= literal);
                assert(literal.subrange(0, literal.len() as int) =~= literal);
                assert(without_comments(literal, literal.len() as int) =~= Seq::empty());
                assert(literal + Seq::<char>::empty() =~= literal);
            }
        } else if s[i] == '/' && i + 1 < s.len() && s[i + 1] == '/' {
            lemma_seek(s, '\n', i + 2);
            lemma_no_comments_left(s, seek(s, '\n', i + 2));
        } else if s[i] == '/' && i + 1 < s.len() && s[i + 1] == '*' {
            reveal_strlit("*/");
            lemma_seek_pat(s, "*/"@, i + 2);
            lemma_no_comments_left(s, block_end(s, i + 2));
        } else {
            let rest = without_comments(s, i + 1);
            lemma_no_comments_left(s, i + 1);
            assert(t =~= seq![s[i]] + rest);
            lemma_shift(seq![s[i]], rest, 0);
            if s[i] == '/' && i + 1 < s.len() {
                lemma_literal_end(s, i + 2);
                assert(rest[0] == s[i + 1]);
            }
        }
    }
}

/// After stripping, no comment is left: stripping again changes nothing.
pub proof fn law_no_comments_left(s: Seq<char>)
    ensures
        without_comments(without_comments(s, 0), 0) == without_comments(s, 0),
{
    lemma_no_comments_left(s, 0);
}

/// A configuration is valid exactly if it has one of `image`, `build` and `dockerComposeFile`, a
/// service with the last, a workspace folder with a workspace mount, and no blank text where one is
/// needed.
pub proof fn law_valid_configurations(c: DevContainerConfig)
    ensures
        config_error(c) is None <==> {
            &&& c.image is Some || c.build is Some || c.docker_compose_file is Some
            &&& !(c.image is Some && c.build is Some)
            &&& !(c.image is Some && c.docker_compose_file is Some)
            &&& !(c.build is Some && c.docker_compose_file is Some)
            &&& c.docker_compose_file is Some ==> c.service is Some
            &&& c.workspace_mount is Some ==> c.workspace_folder is Some
            &&& c.name matches Some(n) ==> !blank(n@) && has_alnum(trimmed(n@))
            &&& !blank_option(c.image) && !blank_option(c.service)
            &&& !blank_option(c.workspace_folder)
            &&& c.build matches Some(b) ==> !blank_option(b.dockerfile)
            &&& c.docker_compose_file matches Some(f) ==> !blank_compose_file(f)
            &&& !blank_env_name(c)
        },
{
}

/// What is said to be wrong with a configuration is wrong with it: each message names a rule that the
/// configuration breaks.
pub proof fn law_messages_are_true(c: DevContainerConfig)
    ensures
        config_error(c) == Some("Either 'image', 'build' or 'dockerComposeFile' must be specified"@) ==> (c.image is None && c.build is None && c.docker_compose_file is None),
        config_error(c) == Some("'image' and 'build' cannot both be specified"@) ==> (c.image is Some && c.build is Some),
        config_error(c) == Some("'name' must not be empty"@) ==> (c.name matches Some(n) && trimmed(n@).len() == 0),
        config_error(c) == Some("'name' must contain at least one alphanumeric character"@) ==> (c.name matches Some(n) && !has_alnum(trimmed(n@))),
        config_error(c) == Some("'image' must not be empty"@) ==> (c.image matches Some(i) && trimmed(i@).len() == 0),
        config_error(c) == Some("'build.dockerfile' must not be empty"@) ==> (c.build matches Some(b) && b.dockerfile matches Some(d) && trimmed(d@).len() == 0),
        config_error(c) == Some("'service' must be specified when using 'dockerComposeFile'"@) ==> (c.docker_compose_file is Some && c.service is None),
        config_error(c) == Some("'dockerComposeFile' cannot be combined with 'image' or 'build'"@) ==> (c.docker_compose_file is Some && (c.image is Some || c.build is Some)),
        config_error(c) == Some("'workspaceFolder' must be specified when using 'workspaceMount'"@) ==> (c.workspace_mount is Some && c.workspace_folder is None),
        config_error(c) == Some("'workspaceFolder' must not be empty"@) ==> (c.workspace_folder matches Some(f) && trimmed(f@).len() == 0),
        config_error(c) == Some("'dockerComposeFile' must not be empty"@) ==> (c.docker_compose_file matches Some(f) && blank_compose_file(f)),
        config_error(c) == Some("'service' must not be empty"@) ==> (c.service matches Some(s) && trimmed(s@).len() == 0),
        config_error(c) == Some("'containerEnv'/'remoteEnv' keys must not be empty"@) ==> (blank_env_name(c)),
{
    reveal_strlit("Either 'image', 'build' or 'dockerComposeFile' must be specified");
    reveal_strlit("'image' and 'build' cannot both be specified");
    reveal_strlit("'name' must not be empty");
    reveal_strlit("'name' must contain at least one alphanumeric character");
    reveal_strlit("'image' must not be empty");
    reveal_strlit("'build.dockerfile' must not be empty");
    reveal_strlit("'service' must be specified when using 'dockerComposeFile'");
    reveal_strlit("'dockerComposeFile' cannot be combined with 'image' or 'build'");
    reveal_strlit("'workspaceFolder' must be specified when using 'workspaceMount'");
    reveal_strlit("'workspaceFolder' must not be empty");
    reveal_strlit("'dockerComposeFile' must not be empty");
    reveal_strlit("'service' must not be empty");
    reveal_strlit("'containerEnv'/'remoteEnv' keys must not be empty");
    assert("Either 'image', 'build' or 'dockerComposeFile' must be specified"@.len() == 64);
    assert("'image' and 'build' cannot both be specified"@.len() == 44);
    assert("'name' must not be empty"@.len() == 24);
    assert("'name' must contain at least one alphanumeric character"@.len() == 55);
    assert("'image' must not be empty"@.len() == 25);
    assert("'build.dockerfile' must not be empty"@.len() == 36);
    assert("'service' must be specified when using 'dockerComposeFile'"@.len() == 58);
    assert("'dockerComposeFile' cannot be combined with 'image' or 'build'"@.len() == 62);
    assert("'workspaceFolder' must be specified when using 'workspaceMount'"@.len() == 63);
    assert("'workspaceFolder' must not be empty"@.len() == 35);
    assert("'dockerComposeFile' must not be empty"@.len() == 37);
    assert("'service' must not be empty"@.len() == 27);
    assert("'containerEnv'/'remoteEnv' keys must not be empty"@.len() == 49);
}

/// The name of a container is one that Docker accepts: `bondar-`, and then the configured name, or else
/// that of the workspace folder, with a dash in place of everything but letters and digits.
pub proof fn law_container_names(c: DevContainerConfig, workspace: Workspace)
    ensures
        ({
            let name = container_name_of(c, workspace);
            let from = match c.name {
                Some(n) => n@,
                None => match workspace.basename {
                    Some(b) => b@,
                    None => "workspace"@,
                },
            };
            &&& name.len() == 7 + from.len()
            &&& name.take(7) == "bondar-"@
            &&& dashed(from, name.skip(7))
        }),
{
    reveal_strlit("bondar-");
    let name = container_name_of(c, workspace);
    let from = match c.name {
        Some(n) => n@,
        None => match workspace.basename {
            Some(b) => b@,
            None => "workspace"@,
        },
    };
    assert(name.take(7) =~= "bondar-"@);
    assert(name.skip(7) =~= sanitized(from));
    lemma_dashed(from);
}

/// Whether a text is another one with a dash in place of everything but letters and digits.
pub open spec fn dashed(s: Seq<char>, t: Seq<char>) -> bool {
    &&& t.len() == s.len()
    &&& forall|i: int| 0 <= i < s.len() && is_alnum(#[trigger] s[i]) ==> t[i] == s[i]
    &&& forall|i: int| 0 <= i < s.len() && !is_alnum(#[trigger] s[i]) ==> t[i] == '-'
}

proof fn lemma_dashed(s: Seq<char>)
    ensures
        dashed(s, sanitized(s)),
{
}

/// The workspace folder in the container is the configured one; without one it is `/workspace`, and for
/// references with Docker Compose `/`.
pub proof fn law_workspace_folders(c: DevContainerConfig)
    ensures
        c.workspace_folder matches Some(f) ==> c.target() == f@ && c.reference_target() == f@,
        c.workspace_folder is None ==> c.target() == "/workspace"@,
        c.workspace_folder is None && c.docker_compose_file is Some ==> c.reference_target() == "/"@,
        c.workspace_folder is None && c.docker_compose_file is None ==> c.reference_target()
            == "/workspace"@,
        config_path(true, true) == Some(".devcontainer/devcontainer.json"@),
        config_path(true, false) == Some(".devcontainer/devcontainer.json"@),
        config_path(false, true) == Some(".devcontainer.json"@),
        config_path(false, false) is None,
{
}

/// A variable without a value is not set, and one with a value has it, whatever it had before.
pub proof fn law_set_variables(
    v: Seq<(String, Option<String>)>,
    name: String,
    value: String,
    key: Seq<char>,
)
    ensures
        set_variables(v.push((name, None))) == set_variables(v),
        lookup(set_variables(v.push((name, Some(value)))), name@) == Some(value@),
        key != name@ ==> lookup(set_variables(v.push((name, Some(value)))), key) == lookup(
            set_variables(v),
            key,
        ),
{
    assert(v.push((name, None)).drop_last() =~= v);
    assert(v.push((name, Some(value))).drop_last() =~= v);
    lemma_inserted_lookup(set_variables(v), name@, value@, name@);
    lemma_inserted_lookup(set_variables(v), name@, value@, key);
}

proof fn lemma_plain(before: Seq<char>, rest: Seq<char>, i: int)
    requires
        !before.contains('/'),
        !before.contains('"'),
        0 <= i <= before.len(),
    ensures
        without_comments(before + rest, i) == before.skip(i) + without_comments(rest, 0),
    decreases before.len() - i,
{
    let s = before + rest;
    if i < before.len() {
        assert(before.contains(before[i]));
        assert(s[i] == before[i]);
        lemma_plain(before, rest, i + 1);
        assert(seq![s[i]] + (before.skip(i + 1) + without_comments(rest, 0)) =~= before.skip(i)
            + without_comments(rest, 0));
    } else {
        lemma_shift(before, rest, 0);
        assert(before.skip(i) + without_comments(rest, 0) =~= without_comments(rest, 0));
    }
}

/// A line comment is left out up to the end of its line, or of the text, and nothing else is: what
/// stands before it stays, and what follows is read on its own.
pub proof fn law_line_comments(before: Seq<char>, comment: Seq<char>, rest: Seq<char>)
    requires
        !before.contains('/'),
        !before.contains('"'),
        !comment.contains('\n'),
    ensures
        without_comments(before + (seq!['/', '/'] + comment + (seq!['\n'] + rest)), 0) == before + (
        seq!['\n'] + without_comments(rest, 0)),
        without_comments(before + (seq!['/', '/'] + comment), 0) == before,
{
    let head = seq!['/', '/'] + comment;
    let tail = seq!['\n'] + rest;
    let s = head + tail;
    lemma_plain(before, s, 0);
    assert(before.skip(0) =~= before);
    assert forall|k: int| 2 <= k < head.len() implies s[k] != '\n' && head[k] != '\n' by {
        assert(comment.contains(comment[k - 2]));
    }
    assert(s[head.len() as int] == '\n');
    lemma_seek_is(s, '\n', 2, head.len() as int);
    lemma_shift(head, tail, 0);
    lemma_shift(seq!['\n'], rest, 0);
    assert(tail[0] == '\n');
    assert(without_comments(tail, 0) == seq!['\n'] + without_comments(tail, 1));
    lemma_plain(before, head, 0);
    lemma_seek(head, '\n', 2);
    assert(seek(head, '\n', 2) == head.len());
    assert(head[0] == '/' && head[1] == '/');
    assert(without_comments(head, head.len() as int) =~= Seq::empty());
    assert(before + Seq::<char>::empty() =~= before);
}

/// A block comment is left out up to the first end mark behind it, or to the end of the text where it
/// has none, and nothing else is.
pub proof fn law_block_comments(before: Seq<char>, comment: Seq<char>, rest: Seq<char>)
    requires
        !before.contains('/'),
        !before.contains('"'),
        !occurs(comment, "*/"@),
    ensures
        without_comments(before + (seq!['/', '*'] + comment + (seq!['*', '/'] + rest)), 0) == before
            + without_comments(rest, 0),
        without_comments(before + (seq!['/', '*'] + comment), 0) == before,
{
    reveal_strlit("*/");
    let close = "*/"@;
    assert(close =~= seq!['*', '/']);
    let head = seq!['/', '*'] + comment;
    let tail = close + rest;
    let s = head + tail;
    lemma_plain(before, s, 0);
    assert(before.skip(0) =~= before);
    let n = head.len() as int;
    assert(s.subrange(n, n + 2) =~= close);
    assert(stands_at(s, close, n));
    assert forall|k: int| 2 <= k < n implies !stands_at(s, close, k) && !stands_at(head, close, k) by {
        if stands_at(s, close, k) {
            assert(s.subrange(k, k + 2)[0] == '*' && s.subrange(k, k + 2)[1] == '/');
            assert(s[k] == '*' && s[k + 1] == '/');
            if k + 1 < n {
                assert(comment.subrange(k - 2, k) =~= close);
                assert(stands_at(comment, close, k - 2));
            }
        }
        if stands_at(head, close, k) {
            assert(head.subrange(k, k + 2) =~= comment.subrange(k - 2, k));
            assert(stands_at(comment, close, k - 2));
        }
    }
    lemma_seek_pat(s, close, 2);
    assert(seek_pat(s, close, 2) == n);
    assert(s =~= (head + close) + rest);
    lemma_shift(head + close, rest, 0);
    lemma_plain(before, head, 0);
    lemma_seek_pat(head, close, 2);
    assert(seek_pat(head, close, 2) == n);
    assert(head[0] == '/' && head[1] == '*');
    assert(without_comments(head, n) =~= Seq::empty());
    assert(before + Seq::<char>::empty() =~= before);
}

/// A byte order mark at the start of a configuration file does not matter.
pub proof fn law_byte_order_mark(s: Seq<char>)
    requires
        s.len() == 0 || s[0] != '\u{feff}',
    ensures
        config_text(s) == without_comments(s, 0),
        config_text(seq!['\u{feff}'] + s) == without_comments(s, 0),
{
    reveal_strlit("\u{feff}");
    let mark = "\u{feff}"@;
    assert(mark =~= seq!['\u{feff}']);
    let t = mark + s;
    assert(t.subrange(0, 1) =~= mark);
    assert(t.skip(1) =~= s);
    if stands_at(s, mark, 0) {
        assert(s.subrange(0, 1)[0] == '\u{feff}');
    }
}

} // verus!
