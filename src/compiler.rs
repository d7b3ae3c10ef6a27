//! Where artifacts live and how they are built.
//!
//! An artifact is `<cache>/<hash>.<ext>`. A self-contained source is built by
//! one `rustc` call; one with dependencies by a package build in
//! `<cache>/cargo/<hash>/` whose library is then copied to the artifact path.
//! An artifact that exists already is used as it is.

use vstd::prelude::*;
use crate::parser::strings_view;
use crate::text::{contains_str, occurs_in, push_char};
use crate::wire::join_lines;

verus! {

/// The operating system the artifacts are built for.
#[derive(Debug, Clone, Copy, PartialEq, Eq)]
pub enum Platform {
    Linux,
    MacOs,
    Windows,
}

pub open spec fn separator(p: Platform) -> char {
    match p {
        Platform::Windows => '\\',
        _ => '/',
    }
}

/// `b` under the directory `a`.
pub open spec fn path_join(p: Platform, a: Seq<char>, b: Seq<char>) -> Seq<char> {
    if a.len() == 0 {
        b
    } else if a.last() == separator(p) || a.last() == '/' {
        a + b
    } else {
        a + seq![separator(p)] + b
    }
}

pub open spec fn library_extension(p: Platform) -> Seq<char> {
    match p {
        Platform::Linux => "so"@,
        Platform::MacOs => "dylib"@,
        Platform::Windows => "dll"@,
    }
}

/// The file name a package build gives the library of package `pkg`.
pub open spec fn built_library_name(p: Platform, pkg: Seq<char>) -> Seq<char> {
    match p {
        Platform::Windows => pkg + ".dll"@,
        _ => "lib"@ + pkg + seq!['.'] + library_extension(p),
    }
}

fn join_path(p: Platform, a: &str, b: &str) -> (r: String)
    ensures
        r@ == path_join(p, a@, b@),
{
    let mut r = String::from_str(a);
    let n = a.unicode_len();
    if n == 0 {
        let x = String::from_str(b);
        assert(x@ == path_join(p, a@, b@));
        return x;
    }
    let last = a.get_char(n - 1);
    let sep = match p {
        Platform::Windows => '\\',
        _ => '/',
    };
    if !(last == sep || last == '/') {
        push_char(&mut r, sep);
    }
    r.append(b);
    r
}

#[derive(Debug, Clone, Default)]
pub struct CompileOptions {
    pub dependencies: Vec<String>,
}

/// Why a build failed.
#[derive(Debug)]
pub enum CompileError {
    Io(String),
    Compile(String),
}

impl CompileError {
    /// The error as text.
    pub fn message(&self) -> (r: String)
        ensures
            r@ == match self {
                CompileError::Io(m) => "IO error: "@ + m@,
                CompileError::Compile(m) => "Compilation failed:\n"@ + m@,
            },
    {
        match self {
            CompileError::Io(m) => {
                let mut r = String::from_str("IO error: ");
                r.append(m.as_str());
                r
            },
            CompileError::Compile(m) => {
                let mut r = String::from_str("Compilation failed:\n");
                r.append(m.as_str());
                r
            },
        }
    }
}

/// What a compile call must do.
#[derive(Debug)]
pub enum BuildStep {
    /// The artifact exists: use it.
    Cached { artifact: String },
    /// Write `source_file`, run `rustc` with `args`, remove `source_file`.
    Direct { source_file: String, artifact: String, args: Vec<String> },
    /// Write the manifest and `lib_source` under `project_dir`, run a release
    /// package build in `target_dir`, copy `built_library` to `artifact`.
    Package {
        project_dir: String,
        manifest_file: String,
        lib_source: String,
        target_dir: String,
        built_library: String,
        artifact: String,
    },
}

pub struct Compiler {
    cache_dir: String,
    global_target: String,
    platform: Platform,
}

/// The shared build directory: the override when given, else
/// `<home>/.rsp/target`, else `<cache>/target`.
pub open spec fn target_dir_of(
    p: Platform,
    cache_dir: Seq<char>,
    target_override: Option<Seq<char>>,
    home: Option<Seq<char>>,
) -> Seq<char> {
    match target_override {
        Some(t) => t,
        None => match home {
            Some(h) => path_join(p, path_join(p, h, ".rsp"@), "target"@),
            None => path_join(p, cache_dir, "target"@),
        },
    }
}

/// The `rustc` arguments that build `source_file` into `artifact`.
pub open spec fn rustc_args(source_file: Seq<char>, artifact: Seq<char>) -> Seq<Seq<char>> {
    seq![
        source_file,
        "--crate-type=cdylib"@,
        "-o"@,
        artifact,
        "-C"@,
        "opt-level=2"@,
        "-C"@,
        "debuginfo=0"@,
    ]
}

pub const MANIFEST_PACKAGE: &'static str = "[package]\nname = \"";

pub const MANIFEST_AFTER_NAME: &'static str = "\"\nversion = \"0.0.1\"\nedition = \"2021\"\n\n[lib]\ncrate-type = [\"cdylib\"]\n\n[dependencies]\n";

pub const MANIFEST_TAIL: &'static str = "\n\n[profile.release]\nopt-level = 2\nlto = false\ncodegen-units = 16\n\n[workspace]\n";

/// The dependency lines of a package: those given, then the runtime by path
/// unless one of them names it already.
pub open spec fn manifest_deps(deps: Seq<Seq<char>>, runtime_path: Seq<char>) -> Seq<Seq<char>> {
    if exists|i: int| 0 <= i < deps.len() && occurs_in(#[trigger] deps[i], "rsp-runtime"@) {
        deps
    } else {
        deps.push("rsp-runtime = { path = \""@ + runtime_path + "\" }"@)
    }
}

/// The manifest of the package for artifact `name`.
pub open spec fn manifest_of(name: Seq<char>, deps: Seq<Seq<char>>, runtime_path: Seq<char>) -> Seq<
    char,
> {
    MANIFEST_PACKAGE@ + "rsp_"@ + name + MANIFEST_AFTER_NAME@ + join_lines(
        manifest_deps(deps, runtime_path),
    ) + MANIFEST_TAIL@
}

impl Compiler {
    pub closed spec fn spec_cache_dir(&self) -> Seq<char> {
        self.cache_dir@
    }

    pub closed spec fn spec_target_dir(&self) -> Seq<char> {
        self.global_target@
    }

    pub closed spec fn spec_platform(&self) -> Platform {
        self.platform
    }

    /// The artifact path for content hash `hash`.
    pub open spec fn artifact_of(&self, hash: Seq<char>) -> Seq<char> {
        path_join(
            self.spec_platform(),
            self.spec_cache_dir(),
            hash + seq!['.'] + library_extension(self.spec_platform()),
        )
    }

    /// The scratch package directory for `hash`.
    pub open spec fn project_of(&self, hash: Seq<char>) -> Seq<char> {
        path_join(
            self.spec_platform(),
            path_join(self.spec_platform(), self.spec_cache_dir(), "cargo"@),
            hash,
        )
    }

    /// Whether `step` is what compiling the artifact for `hash` takes, by
    /// package build or not, given whether the artifact file exists.
    pub open spec fn is_step_for(&self, step: BuildStep, hash: Seq<char>, package: bool, exists: bool) -> bool {
        let p = self.spec_platform();
        if exists {
            step matches BuildStep::Cached { artifact } && artifact@ == self.artifact_of(hash)
        } else if !package {
            &&& step matches BuildStep::Direct { source_file, artifact, args }
            &&& source_file@ == path_join(p, self.spec_cache_dir(), hash + ".rs"@)
            &&& artifact@ == self.artifact_of(hash)
            &&& strings_view(args@) == rustc_args(source_file@, artifact@)
        } else {
            &&& step matches BuildStep::Package {
                project_dir,
                manifest_file,
                lib_source,
                target_dir,
                built_library,
                artifact,
            }
            &&& project_dir@ == self.project_of(hash)
            &&& manifest_file@ == path_join(p, project_dir@, "Cargo.toml"@)
            &&& lib_source@ == path_join(p, path_join(p, project_dir@, "src"@), "lib.rs"@)
            &&& target_dir@ == self.spec_target_dir()
            &&& built_library@ == path_join(
                p,
                path_join(p, self.spec_target_dir(), "release"@),
                built_library_name(p, "rsp_"@ + hash),
            )
            &&& artifact@ == self.artifact_of(hash)
        }
    }

    /// A compiler for `cache_dir`; the shared build directory is the
    /// override when given, else under `home`, else under the cache.
    pub fn new(
        cache_dir: String,
        target_override: Option<String>,
        home: Option<String>,
        platform: Platform,
    ) -> (r: Compiler)
        ensures
            r.spec_cache_dir() == cache_dir@,
            r.spec_platform() == platform,
            r.spec_target_dir() == target_dir_of(
                platform,
                cache_dir@,
                match target_override {
                    Some(t) => Some(t@),
                    None => None,
                },
                match home {
                    Some(h) => Some(h@),
                    None => None,
                },
            ),
    {
        let global_target = match target_override {
            Some(t) => t,
            None => match home {
                Some(h) => {
                    let rsp = join_path(platform, h.as_str(), ".rsp");
                    join_path(platform, rsp.as_str(), "target")
                },
                None => join_path(platform, cache_dir.as_str(), "target"),
            },
        };
        Compiler { cache_dir, global_target, platform }
    }

    pub fn cache_dir(&self) -> (r: &str)
        ensures
            r@ == self.spec_cache_dir(),
    {
        self.cache_dir.as_str()
    }

    pub fn target_dir(&self) -> (r: &str)
        ensures
            r@ == self.spec_target_dir(),
    {
        self.global_target.as_str()
    }

    /// The artifact path for content hash `name`.
    pub fn get_lib_path(&self, name: &str) -> (r: String)
        ensures
            r@ == self.artifact_of(name@),
    {
        let mut file = String::from_str(name);
        push_char(&mut file, '.');
        match self.platform {
            Platform::Linux => file.append("so"),
            Platform::MacOs => file.append("dylib"),
            Platform::Windows => file.append("dll"),
        }
        join_path(self.platform, self.cache_dir.as_str(), file.as_str())
    }

    /// What compiling the artifact for `hash` takes: nothing when the
    /// artifact exists, else one `rustc` call or, for `package`, a package
    /// build.
    pub fn build_step(&self, hash: &str, package: bool, artifact_exists: bool) -> (r: BuildStep)
        ensures
            self.is_step_for(r, hash@, package, artifact_exists),
    {
        let artifact = self.get_lib_path(hash);
        if artifact_exists {
            return BuildStep::Cached { artifact };
        }
        let p = self.platform;
        if !package {
            let mut file = String::from_str(hash);
            file.append(".rs");
            let source_file = join_path(p, self.cache_dir.as_str(), file.as_str());
            let mut args: Vec<String> = Vec::new();
            args.push(source_file.clone());
            args.push(String::from_str("--crate-type=cdylib"));
            args.push(String::from_str("-o"));
            args.push(artifact.clone());
            args.push(String::from_str("-C"));
            args.push(String::from_str("opt-level=2"));
            args.push(String::from_str("-C"));
            args.push(String::from_str("debuginfo=0"));
            assert(strings_view(args@) =~= rustc_args(source_file@, artifact@));
            return BuildStep::Direct { source_file, artifact, args };
        }
        let cargo_dir = join_path(p, self.cache_dir.as_str(), "cargo");
        let project_dir = join_path(p, cargo_dir.as_str(), hash);
        let manifest_file = join_path(p, project_dir.as_str(), "Cargo.toml");
        let src_dir = join_path(p, project_dir.as_str(), "src");
        let lib_source = join_path(p, src_dir.as_str(), "lib.rs");
        let release = join_path(p, self.global_target.as_str(), "release");
        let mut lib_name = match p {
            Platform::Windows => String::new(),
            _ => String::from_str("lib"),
        };
        lib_name.append("rsp_");
        lib_name.append(hash);
        match p {
            Platform::Linux => lib_name.append(".so"),
            Platform::MacOs => lib_name.append(".dylib"),
            Platform::Windows => lib_name.append(".dll"),
        }
        proof {
            reveal_strlit(".so");
            reveal_strlit(".dylib");
            reveal_strlit(".dll");
            reveal_strlit("so");
            reveal_strlit("dylib");
            reveal_strlit("dll");
            assert(lib_name@ =~= built_library_name(p, "rsp_"@ + hash@));
        }
        let built_library = join_path(p, release.as_str(), lib_name.as_str());
        let target_dir = self.global_target.clone();
        BuildStep::Package {
            project_dir,
            manifest_file,
            lib_source,
            target_dir,
            built_library,
            artifact,
        }
    }
}

/// The outcome of a build of `artifact`: the artifact when the toolchain
/// succeeded, else its error output.
pub fn build_outcome(artifact: String, success: bool, stderr: String) -> (r: Result<String, CompileError>)
    ensures
        success ==> (r matches Ok(a) && a@ == artifact@),
        !success ==> (r matches Err(CompileError::Compile(m)) && m@ == stderr@),
{
    if success {
        Ok(artifact)
    } else {
        Err(CompileError::Compile(stderr))
    }
}

/// The package manifest for artifact `name`, with the runtime found at
/// `runtime_path`.
pub fn generate_cargo_toml(name: &str, options: &CompileOptions, runtime_path: &str) -> (r: String)
    ensures
        r@ == manifest_of(name@, strings_view(options.dependencies@), runtime_path@),
{
    let ghost deps = strings_view(options.dependencies@);
    let mut has_runtime = false;
    let mut i: usize = 0;
    while i < options.dependencies.len()
        invariant
            deps == strings_view(options.dependencies@),
            i <= options.dependencies.len(),
            has_runtime == exists|j: int| 0 <= j < i && occurs_in(#[trigger] deps[j], "rsp-runtime"@),
        decreases options.dependencies.len() - i,
    {
        let here = contains_str(options.dependencies[i].as_str(), "rsp-runtime");
        assert(options.dependencies[i as int]@ == deps[i as int]);
        has_runtime = has_runtime || here;
        i = i + 1;
    }
    let mut r = String::from_str(MANIFEST_PACKAGE);
    r.append("rsp_");
    r.append(name);
    r.append(MANIFEST_AFTER_NAME);
    let mut k: usize = 0;
    let ghost all = manifest_deps(deps, runtime_path@);
    let ghost head = r@;
    let n = options.dependencies.len();
    while k < n
        invariant
            deps == strings_view(options.dependencies@),
            n == deps.len(),
            k <= n,
            all == manifest_deps(deps, runtime_path@),
            r@ == head + join_lines(deps.take(k as int)),
        decreases n - k,
    {
        if k > 0 {
            push_char(&mut r, '\n');
        }
        r.append(options.dependencies[k].as_str());
        proof {
            let t = deps.take(k + 1);
            assert(t.drop_last() =~= deps.take(k as int));
            if k == 0 {
                assert(join_lines(deps.take(0)) =~= Seq::<char>::empty());
                assert(r@ =~= head + join_lines(t));
            } else {
                assert(r@ =~= head + join_lines(t));
            }
        }
        k = k + 1;
    }
    assert(deps.take(n as int) =~= deps);
    if !has_runtime {
        if n > 0 {
            push_char(&mut r, '\n');
        }
        r.append("rsp-runtime = { path = \"");
        r.append(runtime_path);
        r.append("\" }");
        proof {
            let line = "rsp-runtime = { path = \""@ + runtime_path@ + "\" }"@;
            assert(all == deps.push(line));
            assert(all.drop_last() =~= deps);
            if n == 0 {
                assert(join_lines(deps) =~= Seq::<char>::empty());
                assert(r@ =~= head + join_lines(all));
            } else {
                assert(r@ =~= head + join_lines(all));
            }
        }
    }
    r.append(MANIFEST_TAIL);
    r
}

} // verus!
