use rookpkg::arch::{escape_toml_string, parse_dependency, ArchConverter};
use rookpkg::errs::RookError;
use rookpkg::pkgbuild::Pkgbuild;

#[test]
fn test_parse_dependency() {
    assert_eq!(
        parse_dependency("glibc>=2.38"),
        ("glibc".to_string(), Some(">=2.38".to_string()))
    );
    assert_eq!(parse_dependency("openssl"), ("openssl".to_string(), None));
    assert_eq!(
        parse_dependency("qt6-base=6.7.0"),
        ("qt6-base".to_string(), Some("=6.7.0".to_string()))
    );
}

#[test]
fn test_should_skip() {
    let converter = ArchConverter::new().unwrap();
    assert!(converter.should_skip("linux"));
    assert!(converter.should_skip("gcc"));
    assert!(converter.should_skip("lib32-glibc"));
    assert!(!converter.should_skip("firefox"));
}

#[test]
fn test_map_package_name() {
    let converter = ArchConverter::new().unwrap();
    assert_eq!(converter.map_package_name("python"), "python3");
    assert_eq!(converter.map_package_name("firefox"), "firefox");
}

#[test]
fn dependency_round_trip_for_each_operator() {
    for op in [">=", "<=", ">", "<", "="] {
        let dep = format!("pkgx{}4.2", op);
        let (name, constraint) = parse_dependency(&dep);
        assert_eq!(name, "pkgx");
        assert_eq!(constraint, Some(format!("{}4.2", op)));
    }
}

#[test]
fn map_dependency_drops_skipped_and_keeps_constraints() {
    let converter = ArchConverter::new().unwrap();
    assert_eq!(converter.map_dependency("glibc>=2.38"), None);
    assert_eq!(
        converter.map_dependency("python>=3.10"),
        Some("python3 >=3.10".to_string())
    );
    assert_eq!(converter.map_dependency("zlib"), Some("zlib".to_string()));
}

#[test]
fn convert_refuses_skip_list() {
    let converter = ArchConverter::new().unwrap();
    let r = converter.convert("linux", "pkgname=linux\npkgver=6.1\npkgrel=1\n");
    assert_eq!(r, Err(RookError::SkipList));
}

#[test]
fn escape_toml_string_escapes_controls() {
    assert_eq!(escape_toml_string("a\\b"), "a\\\\b");
    assert_eq!(escape_toml_string("say \"hi\"\n"), "say \\\"hi\\\"\\n");
    assert_eq!(escape_toml_string("tab\there\rend"), "tab\\there\\rend");
}

fn sample_recipe() -> Pkgbuild {
    let content = r#"
pkgname=example
pkgver=1.0.0
pkgrel=1
pkgdesc="An example package"
arch=('x86_64')
url="https://example.com"
license=('MIT' 'Apache-2.0')
depends=('glibc' 'openssl>=3')
makedepends=('cmake')
optdepends=('zlib: compression support')
backup=('etc/example.conf')
source=("https://example.com/${pkgname}-${pkgver}.tar.gz" extra.patch)
sha256sums=('abc123def456' 'SKIP')

build() {
    cd "$srcdir/$pkgname-$pkgver"
    make
}

package() {
    DESTDIR="$pkgdir" make install
}
"#;
    Pkgbuild::parse(content).unwrap()
}

#[test]
fn emitted_recipe_is_valid_toml() {
    let converter = ArchConverter::new().unwrap();
    let pkg = sample_recipe();
    let rook = converter.pkgbuild_to_rook(&pkg).unwrap();
    let value: toml::Value = toml::from_str(&rook).unwrap();
    let package = value.get("package").unwrap();
    assert_eq!(
        package.get("name").unwrap().as_str().unwrap(),
        "example"
    );
    assert_eq!(package.get("release").unwrap().as_integer().unwrap(), 1);
}

#[test]
fn emitted_recipe_has_expected_shape() {
    let converter = ArchConverter::new().unwrap();
    let pkg = sample_recipe();
    let rook = converter.pkgbuild_to_rook(&pkg).unwrap();
    assert!(rook.starts_with("[package]\n"));
    assert!(rook.contains("version = \"1.0.0\"\n"));
    assert!(rook.contains("release = 1\n"));
    assert!(rook.contains("[sources]\n"));
    assert!(rook.contains("source0 = { url = \"https://example.com/example-1.0.0.tar.gz\", sha256 = \"abc123def456\" }\n"));
    assert!(rook.contains("sha256 = \"_NEEDS_CHECKSUM_RUN_rookpkg_checksum_update_\""));
    assert!(rook.contains("license = \"MIT AND Apache-2.0\"\n"));
    assert!(rook.contains("[depends]\nopenssl = \">=3\"\n"));
    assert!(rook.contains("zlib = [\"compression support\"]\n"));
    assert!(rook.contains("\"etc/example.conf\" = {}\n"));
    assert!(rook.contains("install = \"\"\"\n    DESTDIR=\"$ROOKPKG_DESTDIR\" make install\n\"\"\"\n"));
    assert!(!rook.contains("glibc = "));
}

#[test]
fn pagination_stops_on_short_or_failed_page() {
    assert!(rookpkg::arch::next_page_wanted(true, 250));
    assert!(!rookpkg::arch::next_page_wanted(true, 249));
    assert!(!rookpkg::arch::next_page_wanted(false, 250));
}

#[test]
fn conversion_stats_count() {
    let mut stats = rookpkg::arch::ConversionStats::new(3);
    stats.record_converted();
    stats.record_skipped();
    stats.record_failed("bad".to_string());
    assert_eq!(stats.total, 3);
    assert_eq!(stats.converted, 1);
    assert_eq!(stats.skipped, 1);
    assert_eq!(stats.failed, 1);
    assert_eq!(stats.failed_packages, vec!["bad".to_string()]);
}

#[test]
fn convert_rejects_unparseable_text() {
    let converter = ArchConverter::new().unwrap();
    let r = converter.convert("firefox", "# nothing here\n");
    assert_eq!(r, Err(RookError::Parse));
}

#[test]
fn emitted_sections_are_uniform_even_when_empty() {
    let converter = ArchConverter::new().unwrap();
    let pkg = Pkgbuild::parse("pkgname=tiny\npkgver=1\npkgrel=1\n").unwrap();
    let rook = converter.pkgbuild_to_rook(&pkg).unwrap();
    let headers = [
        "[package]\n",
        "[sources]\n\n",
        "[patches]\n\n",
        "[build_depends]\n\n",
        "[depends]\n\n",
        "[optional_depends]\n\n",
        "[environment]\n\n",
        "[build]\n",
        "[files]\n\n",
        "[config_files]\n\n",
        "[scripts]\n\n",
    ];
    let mut last = 0;
    for header in headers {
        let pos = rook[last..]
            .find(header)
            .unwrap_or_else(|| panic!("missing or out of order: {}", header.trim()));
        last += pos + header.len();
    }
    let value: toml::Value = toml::from_str(&rook).unwrap();
    assert!(value.get("sources").unwrap().as_table().unwrap().is_empty());
}
