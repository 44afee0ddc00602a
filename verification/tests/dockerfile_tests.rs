use nephelios::dockerfile::{render_dockerfile, DockerfileError};
use nephelios::metadata::AppMetadata;

fn meta() -> AppMetadata {
    AppMetadata {
        app_name: "demo".to_string(),
        app_type: "nodejs".to_string(),
        github_url: "https://github.com/user/repo".to_string(),
        domain: "demo.localhost".to_string(),
        created_at: "2024-01-01T00:00:00+00:00".to_string(),
    }
}

fn labels_text() -> String {
    [
        "LABEL com.myapp.name=\"demo\"",
        "LABEL com.myapp.type=\"nodejs\"",
        "LABEL com.myapp.github_url=\"https://github.com/user/repo\"",
        "LABEL com.myapp.domain=\"demo.localhost\"",
        "LABEL com.myapp.created_at=\"2024-01-01T00:00:00+00:00\"",
    ]
    .join("\n")
}

#[test]
fn nodejs_with_npm_commands() {
    let m = meta();
    let env = Vec::new();
    let out = render_dockerfile("nodejs", &m, "npm install", "npm start", "", "/app", &env, "3000")
        .unwrap();
    let expected = format!(
        "FROM node:18-alpine\nWORKDIR /app\n{}\n\n\nCOPY package.json ./\nRUN npm install\nCOPY . .\n\nEXPOSE 3000\nCMD [\"sh\", \"-c\", \"npm start\"]",
        labels_text()
    );
    assert_eq!(out, expected);
}

#[test]
fn nodejs_defaults_to_bun_when_no_tool_is_mentioned() {
    let m = meta();
    let env = Vec::new();
    let out = render_dockerfile("nodejs", &m, "", "", "", "/app", &env, "3000").unwrap();
    let expected = format!(
        "FROM oven/bun:latest\nWORKDIR /app\n{}\n\n\nCOPY package.json ./\nRUN bun install --production\nCOPY . .\n\nEXPOSE 3000\nCMD [\"sh\", \"-c\", \"if bun dev 2>/dev/null; then bun dev; else bun start; fi\"]",
        labels_text()
    );
    assert_eq!(out, expected);
}

#[test]
fn yarn_takes_priority_and_brings_its_setup_line() {
    let m = meta();
    let env = Vec::new();
    let out = render_dockerfile("nodejs", &m, "", "", "yarn build", "/app", &env, "3000").unwrap();
    assert!(out.starts_with("FROM node:18-alpine\n"));
    assert!(out
        .contains("RUN apk add --no-cache curl && curl -o- -L https://yarnpkg.com/install.sh | sh"));
    assert!(out.contains("RUN yarn install --production\n"));
    assert!(out.contains("RUN yarn build\n"));
    assert!(out.ends_with("CMD [\"sh\", \"-c\", \"if yarn dev 2>/dev/null; then yarn dev; else yarn start; fi\"]"));
}

#[test]
fn python_defaults() {
    let m = meta();
    let env = Vec::new();
    let out = render_dockerfile("python", &m, "", "", "", "/srv", &env, "8000").unwrap();
    let expected = format!(
        "FROM python:3.8-slim\nWORKDIR /srv\n{}\n\nCOPY requirements.txt ./\nRUN pip install --no-cache-dir -r requirements.txt\nCOPY . .\n\nEXPOSE 8000\nCMD [\"python\", \"app.py\"]",
        labels_text()
    );
    assert_eq!(out, expected);
}

#[test]
fn env_pairs_become_env_lines() {
    let m = meta();
    let env = vec![
        ("PORT".to_string(), "3000".to_string()),
        ("MODE".to_string(), "prod".to_string()),
    ];
    let out = render_dockerfile("python", &m, "", "", "", "/app", &env, "3000").unwrap();
    assert!(out.contains("ENV PORT=\"3000\"\nENV MODE=\"prod\"\n"));
}

#[test]
fn unsupported_kind_is_rejected() {
    let m = meta();
    let env = Vec::new();
    assert_eq!(
        render_dockerfile("rust", &m, "", "", "", "/app", &env, "3000"),
        Err(DockerfileError::UnsupportedKind)
    );
}
