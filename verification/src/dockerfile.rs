//! Build-specification rendering: the container build file generated for
//! an application from its kind, its commands and its metadata.
//!
//! Only the rendering lives here; deciding whether a hand-written build
//! file already exists, and writing the rendered one out, is file-system
//! work left to the surrounding shell.

use vstd::prelude::*;

verus! {

use vstd::string::StringExecFns;
use crate::metadata::AppMetadata;
use crate::text::seq_contains;
use crate::text::str_contains;

/// Errors of the renderer.
#[derive(Clone, Copy, PartialEq, Eq, Structural, Debug)]
pub enum DockerfileError {
    /// The application kind names no known build preset.
    UnsupportedKind,
}

/// The package managers of the node preset, in detection priority.
#[derive(Clone, Copy, PartialEq, Eq, Structural, Debug)]
pub enum PackageManager {
    Yarn,
    Pnpm,
    Npm,
    Bun,
}

/// One of the given commands mentions the tool.
pub open spec fn mentions_tool(
    install: Seq<char>,
    build: Seq<char>,
    run: Seq<char>,
    tool: Seq<char>,
) -> bool {
    seq_contains(install, tool) || seq_contains(build, tool) || seq_contains(run, tool)
}

/// Which package manager the commands point at: the first of yarn, pnpm
/// and npm that any command mentions, with bun as the default.
pub open spec fn package_manager(install: Seq<char>, build: Seq<char>, run: Seq<char>)
    -> PackageManager {
    if mentions_tool(install, build, run, "yarn"@) {
        PackageManager::Yarn
    } else if mentions_tool(install, build, run, "pnpm"@) {
        PackageManager::Pnpm
    } else if mentions_tool(install, build, run, "npm"@) {
        PackageManager::Npm
    } else {
        PackageManager::Bun
    }
}

/// The base image of the node preset.
pub open spec fn base_image(pm: PackageManager) -> Seq<char> {
    match pm {
        PackageManager::Bun => "oven/bun:latest"@,
        _ => "node:18-alpine"@,
    }
}

/// The extra setup line a package manager needs, if any.
pub open spec fn setup_command(pm: PackageManager) -> Seq<char> {
    match pm {
        PackageManager::Yarn => "RUN apk add --no-cache curl && curl -o- -L https://yarnpkg.com/install.sh | sh"@,
        PackageManager::Pnpm => "RUN npm install -g pnpm"@,
        _ => ""@,
    }
}

/// The default install command of a package manager.
pub open spec fn default_install(pm: PackageManager) -> Seq<char> {
    match pm {
        PackageManager::Yarn => "yarn install --production"@,
        PackageManager::Pnpm => "pnpm install --prod"@,
        PackageManager::Npm => "npm install --production"@,
        PackageManager::Bun => "bun install --production"@,
    }
}

/// The default start command of a package manager.
pub open spec fn default_run(pm: PackageManager) -> Seq<char> {
    match pm {
        PackageManager::Yarn => "CMD [\"sh\", \"-c\", \"if yarn dev 2>/dev/null; then yarn dev; else yarn start; fi\"]"@,
        PackageManager::Pnpm => "CMD [\"sh\", \"-c\", \"if pnpm dev 2>/dev/null; then pnpm dev; else pnpm start; fi\"]"@,
        PackageManager::Npm => "CMD [\"sh\", \"-c\", \"if npm run dev 2>/dev/null; then npm run dev; else npm start; fi\"]"@,
        PackageManager::Bun => "CMD [\"sh\", \"-c\", \"if bun dev 2>/dev/null; then bun dev; else bun start; fi\"]"@,
    }
}

/// The install command actually rendered: the caller's, or the preset
/// default when none was given.
pub open spec fn install_part(install: Seq<char>, dflt: Seq<char>) -> Seq<char> {
    if install.len() > 0 {
        install
    } else {
        dflt
    }
}

/// The build line actually rendered: a `RUN` of the caller's command, or
/// nothing.
pub open spec fn build_part(build: Seq<char>) -> Seq<char> {
    if build.len() > 0 {
        "RUN "@ + build
    } else {
        ""@
    }
}

/// The start line actually rendered: a `CMD` of the caller's command, or
/// the given default.
pub open spec fn run_part(run: Seq<char>, dflt: Seq<char>) -> Seq<char> {
    if run.len() > 0 {
        "CMD [\"sh\", \"-c\", \""@ + run + "\"]"@
    } else {
        dflt
    }
}

/// One image label line.
pub open spec fn docker_label_line(key: Seq<char>, value: Seq<char>) -> Seq<char> {
    "LABEL "@ + key + "=\""@ + value + "\""@
}

/// The image labels: the application descriptor re-expressed on the
/// image, one label per line.
pub open spec fn docker_labels(
    name: Seq<char>,
    kind: Seq<char>,
    url: Seq<char>,
    domain: Seq<char>,
    created: Seq<char>,
) -> Seq<char> {
    docker_label_line("com.myapp.name"@, name) + "\n"@ + docker_label_line(
        "com.myapp.type"@,
        kind,
    ) + "\n"@ + docker_label_line("com.myapp.github_url"@, url) + "\n"@ + docker_label_line(
        "com.myapp.domain"@,
        domain,
    ) + "\n"@ + docker_label_line("com.myapp.created_at"@, created)
}

/// One environment line.
pub open spec fn env_line(key: Seq<char>, value: Seq<char>) -> Seq<char> {
    "ENV "@ + key + "=\""@ + value + "\""@
}

/// The extra environment variables, one line each.
pub open spec fn env_lines(env: Seq<(String, String)>) -> Seq<char>
    decreases env.len(),
{
    if env.len() == 0 {
        Seq::empty()
    } else if env.len() == 1 {
        env_line(env[0].0@, env[0].1@)
    } else {
        env_line(env[0].0@, env[0].1@) + "\n"@ + env_lines(env.drop_first())
    }
}

/// The node-preset build file.
pub open spec fn nodejs_dockerfile(
    meta_name: Seq<char>,
    meta_kind: Seq<char>,
    meta_url: Seq<char>,
    meta_domain: Seq<char>,
    meta_created: Seq<char>,
    install: Seq<char>,
    run: Seq<char>,
    build: Seq<char>,
    workdir: Seq<char>,
    env: Seq<(String, String)>,
    port: Seq<char>,
) -> Seq<char> {
    let pm = package_manager(install, build, run);
    "FROM "@ + base_image(pm) + "\nWORKDIR "@ + workdir + "\n"@ + docker_labels(
        meta_name,
        meta_kind,
        meta_url,
        meta_domain,
        meta_created,
    ) + "\n"@ + env_lines(env) + "\n"@ + setup_command(pm) + "\nCOPY package.json ./\nRUN "@
        + install_part(install, default_install(pm)) + "\nCOPY . .\n"@ + build_part(build)
        + "\nEXPOSE "@ + port + "\n"@ + run_part(run, default_run(pm))
}

/// The python-preset build file.
pub open spec fn python_dockerfile(
    meta_name: Seq<char>,
    meta_kind: Seq<char>,
    meta_url: Seq<char>,
    meta_domain: Seq<char>,
    meta_created: Seq<char>,
    install: Seq<char>,
    run: Seq<char>,
    build: Seq<char>,
    workdir: Seq<char>,
    env: Seq<(String, String)>,
    port: Seq<char>,
) -> Seq<char> {
    "FROM python:3.8-slim\nWORKDIR "@ + workdir + "\n"@ + docker_labels(
        meta_name,
        meta_kind,
        meta_url,
        meta_domain,
        meta_created,
    ) + "\n"@ + env_lines(env) + "\nCOPY requirements.txt ./\nRUN "@ + install_part(
        install,
        "pip install --no-cache-dir -r requirements.txt"@,
    ) + "\nCOPY . .\n"@ + build_part(build) + "\nEXPOSE "@ + port + "\n"@ + run_part(
        run,
        "CMD [\"python\", \"app.py\"]"@,
    )
}

/// Which package manager the given commands use.
fn detect_package_manager(install: &str, build: &str, run: &str) -> (pm: PackageManager)
    ensures
        pm == package_manager(install@, build@, run@),
{
    if str_contains(install, "yarn") || str_contains(build, "yarn") || str_contains(run, "yarn") {
        PackageManager::Yarn
    } else if str_contains(install, "pnpm") || str_contains(build, "pnpm") || str_contains(
        run,
        "pnpm",
    ) {
        PackageManager::Pnpm
    } else if str_contains(install, "npm") || str_contains(build, "npm") || str_contains(
        run,
        "npm",
    ) {
        PackageManager::Npm
    } else {
        PackageManager::Bun
    }
}

fn base_image_exec(pm: PackageManager) -> (r: &'static str)
    ensures
        r@ == base_image(pm),
{
    match pm {
        PackageManager::Bun => "oven/bun:latest",
        _ => "node:18-alpine",
    }
}

fn setup_command_exec(pm: PackageManager) -> (r: &'static str)
    ensures
        r@ == setup_command(pm),
{
    match pm {
        PackageManager::Yarn => "RUN apk add --no-cache curl && curl -o- -L https://yarnpkg.com/install.sh | sh",
        PackageManager::Pnpm => "RUN npm install -g pnpm",
        _ => "",
    }
}

fn default_install_exec(pm: PackageManager) -> (r: &'static str)
    ensures
        r@ == default_install(pm),
{
    match pm {
        PackageManager::Yarn => "yarn install --production",
        PackageManager::Pnpm => "pnpm install --prod",
        PackageManager::Npm => "npm install --production",
        PackageManager::Bun => "bun install --production",
    }
}

fn default_run_exec(pm: PackageManager) -> (r: &'static str)
    ensures
        r@ == default_run(pm),
{
    match pm {
        PackageManager::Yarn => "CMD [\"sh\", \"-c\", \"if yarn dev 2>/dev/null; then yarn dev; else yarn start; fi\"]",
        PackageManager::Pnpm => "CMD [\"sh\", \"-c\", \"if pnpm dev 2>/dev/null; then pnpm dev; else pnpm start; fi\"]",
        PackageManager::Npm => "CMD [\"sh\", \"-c\", \"if npm run dev 2>/dev/null; then npm run dev; else npm start; fi\"]",
        PackageManager::Bun => "CMD [\"sh\", \"-c\", \"if bun dev 2>/dev/null; then bun dev; else bun start; fi\"]",
    }
}

/// Appends the image labels.
fn append_docker_labels(t: &mut String, meta: &AppMetadata)
    ensures
        final(t)@ == old(t)@ + docker_labels(
            meta.app_name@,
            meta.app_type@,
            meta.github_url@,
            meta.domain@,
            meta.created_at@,
        ),
{
    t.append("LABEL ");
    t.append("com.myapp.name");
    t.append("=\"");
    t.append(meta.app_name.as_str());
    t.append("\"");
    t.append("\n");
    t.append("LABEL ");
    t.append("com.myapp.type");
    t.append("=\"");
    t.append(meta.app_type.as_str());
    t.append("\"");
    t.append("\n");
    t.append("LABEL ");
    t.append("com.myapp.github_url");
    t.append("=\"");
    t.append(meta.github_url.as_str());
    t.append("\"");
    t.append("\n");
    t.append("LABEL ");
    t.append("com.myapp.domain");
    t.append("=\"");
    t.append(meta.domain.as_str());
    t.append("\"");
    t.append("\n");
    t.append("LABEL ");
    t.append("com.myapp.created_at");
    t.append("=\"");
    t.append(meta.created_at.as_str());
    t.append("\"");
    proof {
        assert(t@ =~= old(t)@ + docker_labels(
            meta.app_name@,
            meta.app_type@,
            meta.github_url@,
            meta.domain@,
            meta.created_at@,
        ));
    }
}

/// Appends the environment lines for the pairs from `from` onward.
fn append_env_lines(t: &mut String, env: &Vec<(String, String)>, from: usize)
    requires
        from <= env@.len(),
    ensures
        final(t)@ == old(t)@ + env_lines(env@.skip(from as int)),
    decreases env@.len() - from,
{
    if from == env.len() {
        proof {
            assert(env@.skip(from as int) =~= Seq::<(String, String)>::empty());
            assert(t@ =~= old(t)@ + env_lines(env@.skip(from as int)));
        }
        return ;
    }
    t.append("ENV ");
    t.append(env[from].0.as_str());
    t.append("=\"");
    t.append(env[from].1.as_str());
    t.append("\"");
    proof {
        assert(env@.skip(from as int)[0] == env@[from as int]);
    }
    if from + 1 == env.len() {
        proof {
            assert(env@.skip(from as int).len() == 1);
            assert(t@ =~= old(t)@ + env_lines(env@.skip(from as int)));
        }
        return ;
    }
    t.append("\n");
    append_env_lines(t, env, from + 1);
    proof {
        assert(env@.skip(from as int).drop_first() =~= env@.skip(from as int + 1));
        assert(t@ =~= old(t)@ + env_lines(env@.skip(from as int)));
    }
}

/// Renders the build file for an application: the node and python presets
/// are supported, any other kind is rejected. The rendered text is pinned
/// exactly, including the package-manager detection and every default.
pub fn render_dockerfile(
    kind: &str,
    meta: &AppMetadata,
    install_command: &str,
    run_command: &str,
    build_command: &str,
    workdir: &str,
    env: &Vec<(String, String)>,
    deploy_port: &str,
) -> (r: Result<String, DockerfileError>)
    ensures
        match r {
            Ok(t) => (kind@ == "nodejs"@ && t@ == nodejs_dockerfile(
                meta.app_name@,
                meta.app_type@,
                meta.github_url@,
                meta.domain@,
                meta.created_at@,
                install_command@,
                run_command@,
                build_command@,
                workdir@,
                env@,
                deploy_port@,
            )) || (kind@ == "python"@ && kind@ != "nodejs"@ && t@ == python_dockerfile(
                meta.app_name@,
                meta.app_type@,
                meta.github_url@,
                meta.domain@,
                meta.created_at@,
                install_command@,
                run_command@,
                build_command@,
                workdir@,
                env@,
                deploy_port@,
            )),
            Err(e) => e == DockerfileError::UnsupportedKind && kind@ != "nodejs"@ && kind@
                != "python"@,
        },
{
    if crate::text::str_eq(kind, "nodejs") {
        let pm = detect_package_manager(install_command, build_command, run_command);
        let mut t = String::new();
        t.append("FROM ");
        t.append(base_image_exec(pm));
        t.append("\nWORKDIR ");
        t.append(workdir);
        t.append("\n");
        let ghost c1 = "FROM "@ + base_image(pm) + "\nWORKDIR "@ + workdir@ + "\n"@;
        proof {
            assert(t@ =~= c1);
        }
        append_docker_labels(&mut t, meta);
        t.append("\n");
        append_env_lines(&mut t, env, 0);
        t.append("\n");
        t.append(setup_command_exec(pm));
        t.append("\nCOPY package.json ./\nRUN ");
        if install_command.is_empty() {
            t.append(default_install_exec(pm));
        } else {
            t.append(install_command);
        }
        let ghost c2 = c1 + docker_labels(
            meta.app_name@,
            meta.app_type@,
            meta.github_url@,
            meta.domain@,
            meta.created_at@,
        ) + "\n"@ + env_lines(env@) + "\n"@ + setup_command(pm) + "\nCOPY package.json ./\nRUN "@
            + install_part(install_command@, default_install(pm));
        proof {
            assert(env@.skip(0) =~= env@);
            assert(t@ =~= c2);
        }
        t.append("\nCOPY . .\n");
        if !build_command.is_empty() {
            t.append("RUN ");
            t.append(build_command);
        }
        t.append("\nEXPOSE ");
        t.append(deploy_port);
        t.append("\n");
        if run_command.is_empty() {
            t.append(default_run_exec(pm));
        } else {
            t.append("CMD [\"sh\", \"-c\", \"");
            t.append(run_command);
            t.append("\"]");
        }
        proof {
            reveal_strlit("");
            reveal_strlit("RUN ");
            assert(t@ =~= c2 + "\nCOPY . .\n"@ + build_part(build_command@) + "\nEXPOSE "@
                + deploy_port@ + "\n"@ + run_part(run_command@, default_run(pm)));
            assert(t@ =~= nodejs_dockerfile(
                meta.app_name@,
                meta.app_type@,
                meta.github_url@,
                meta.domain@,
                meta.created_at@,
                install_command@,
                run_command@,
                build_command@,
                workdir@,
                env@,
                deploy_port@,
            ));
        }
        Ok(t)
    } else if crate::text::str_eq(kind, "python") {
        let mut t = String::new();
        t.append("FROM python:3.8-slim\nWORKDIR ");
        t.append(workdir);
        t.append("\n");
        let ghost c1 = "FROM python:3.8-slim\nWORKDIR "@ + workdir@ + "\n"@;
        proof {
            assert(t@ =~= c1);
        }
        append_docker_labels(&mut t, meta);
        t.append("\n");
        append_env_lines(&mut t, env, 0);
        t.append("\nCOPY requirements.txt ./\nRUN ");
        if install_command.is_empty() {
            t.append("pip install --no-cache-dir -r requirements.txt");
        } else {
            t.append(install_command);
        }
        let ghost c2 = c1 + docker_labels(
            meta.app_name@,
            meta.app_type@,
            meta.github_url@,
            meta.domain@,
            meta.created_at@,
        ) + "\n"@ + env_lines(env@) + "\nCOPY requirements.txt ./\nRUN "@ + install_part(
            install_command@,
            "pip install --no-cache-dir -r requirements.txt"@,
        );
        proof {
            assert(env@.skip(0) =~= env@);
            assert(t@ =~= c2);
        }
        t.append("\nCOPY . .\n");
        if !build_command.is_empty() {
            t.append("RUN ");
            t.append(build_command);
        }
        t.append("\nEXPOSE ");
        t.append(deploy_port);
        t.append("\n");
        if run_command.is_empty() {
            t.append("CMD [\"python\", \"app.py\"]");
        } else {
            t.append("CMD [\"sh\", \"-c\", \"");
            t.append(run_command);
            t.append("\"]");
        }
        proof {
            reveal_strlit("");
            reveal_strlit("RUN ");
            assert(t@ =~= c2 + "\nCOPY . .\n"@ + build_part(build_command@) + "\nEXPOSE "@
                + deploy_port@ + "\n"@ + run_part(
                run_command@,
                "CMD [\"python\", \"app.py\"]"@,
            ));
            assert(t@ =~= python_dockerfile(
                meta.app_name@,
                meta.app_type@,
                meta.github_url@,
                meta.domain@,
                meta.created_at@,
                install_command@,
                run_command@,
                build_command@,
                workdir@,
                env@,
                deploy_port@,
            ));
        }
        Ok(t)
    } else {
        Err(DockerfileError::UnsupportedKind)
    }
}

} // verus!
