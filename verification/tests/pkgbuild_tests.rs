use rookpkg::errs::RookError;
use rookpkg::pkgbuild::Pkgbuild;

#[test]
fn test_parse_simple_pkgbuild() {
    let content = r#"
pkgname=example
pkgver=1.0.0
pkgrel=1
pkgdesc="An example package"
arch=('x86_64')
url="https://example.com"
license=('MIT')
depends=('glibc' 'openssl')
makedepends=('cmake' 'ninja')
source=("https://example.com/${pkgname}-${pkgver}.tar.gz")
sha256sums=('abc123def456')

build() {
    cd "$srcdir/$pkgname-$pkgver"
    cmake -B build
    cmake --build build
}

package() {
    cd "$srcdir/$pkgname-$pkgver"
    DESTDIR="$pkgdir" cmake --install build
}
"#;

    let pkg = Pkgbuild::parse(content).unwrap();

    assert_eq!(pkg.pkgname, "example");
    assert_eq!(pkg.pkgver, "1.0.0");
    assert_eq!(pkg.pkgrel, "1");
    assert_eq!(pkg.pkgdesc, "An example package");
    assert_eq!(pkg.url, "https://example.com");
    assert_eq!(pkg.arch, vec!["x86_64"]);
    assert_eq!(pkg.license, vec!["MIT"]);
    assert_eq!(pkg.depends, vec!["glibc", "openssl"]);
    assert_eq!(pkg.makedepends, vec!["cmake", "ninja"]);
    assert!(pkg.build_func.is_some());
    assert!(pkg.package_func.is_some());
}

#[test]
fn test_expand_variables() {
    let mut pkg = Pkgbuild::default();
    pkg.pkgname = "mypackage".to_string();
    pkg.pkgver = "2.0.0".to_string();
    pkg.pkgrel = "1".to_string();

    let input = "cd $srcdir/${pkgname}-${pkgver}";
    let expanded = pkg.expand_variables(input);
    assert_eq!(expanded, "cd $ROOKPKG_BUILD/mypackage-2.0.0");

    let input2 = "DESTDIR=\"$pkgdir\" make install";
    let expanded2 = pkg.expand_variables(input2);
    assert_eq!(expanded2, "DESTDIR=\"$ROOKPKG_DESTDIR\" make install");
}

#[test]
fn test_multiline_array() {
    let content = r#"
pkgname=test
pkgver=1.0
depends=(
    'dep1'
    'dep2'
    'dep3'
)
"#;

    let pkg = Pkgbuild::parse(content).unwrap();
    assert_eq!(pkg.depends.len(), 3);
    assert_eq!(pkg.depends[0], "dep1");
    assert_eq!(pkg.depends[2], "dep3");
}

#[test]
fn parse_minimal_recipe() {
    let pkg = Pkgbuild::parse("pkgname=example\npkgver=1.0.0\npkgrel=1\n").unwrap();
    assert_eq!(pkg.pkgname, "example");
    assert_eq!(pkg.pkgver, "1.0.0");
    assert_eq!(pkg.release(), 1);
}

#[test]
fn parse_split_recipe_uses_pkgbase() {
    let content = "pkgbase=base\npkgname=('one' 'two')\npkgver=3\npkgrel=2\n";
    let pkg = Pkgbuild::parse(content).unwrap();
    assert_eq!(pkg.pkgname, "base");
}

#[test]
fn parse_split_recipe_without_pkgbase_takes_first_name() {
    let content = "pkgname=('one' 'two')\npkgver=3\npkgrel=2\n";
    let pkg = Pkgbuild::parse(content).unwrap();
    assert_eq!(pkg.pkgname, "one");
}

#[test]
fn split_package_functions_are_kept() {
    let content = "pkgname=('a' 'b')\npkgver=1\npkgrel=1\npackage_a() {\n  echo a\n}\npackage_b() {\n  echo b\n}\n";
    let pkg = Pkgbuild::parse(content).unwrap();
    let akey: Vec<char> = "a".chars().collect();
    let bkey: Vec<char> = "b".chars().collect();
    assert_eq!(pkg.package_funcs.get(&akey).unwrap(), "  echo a");
    assert_eq!(pkg.package_funcs.get(&bkey).unwrap(), "  echo b");
}

#[test]
fn other_functions_land_in_raw_variables() {
    let content = "pkgname=x\npkgver=1\npkgrel=1\nhelper() {\n  true\n}\n";
    let pkg = Pkgbuild::parse(content).unwrap();
    let key: Vec<char> = "func_helper".chars().collect();
    assert_eq!(pkg.raw_variables.get(&key).unwrap(), "  true");
}

#[test]
fn nested_braces_stay_in_body() {
    let content = "pkgname=x\npkgver=1\npkgrel=1\nbuild() {\n  if true; then {\n    make\n  }\n  fi\n}\n";
    let pkg = Pkgbuild::parse(content).unwrap();
    let body = pkg.build_func.unwrap();
    assert!(body.contains("make"));
    assert!(body.contains("fi"));
}

#[test]
fn release_defaults_to_one_on_garbage() {
    let mut pkg = Pkgbuild::default();
    pkg.pkgrel = "abc".to_string();
    assert_eq!(pkg.release(), 1);
    pkg.pkgrel = "7".to_string();
    assert_eq!(pkg.release(), 7);
}

#[test]
fn full_version_includes_epoch() {
    let mut pkg = Pkgbuild::default();
    pkg.pkgver = "1.2".to_string();
    pkg.pkgrel = "3".to_string();
    assert_eq!(pkg.full_version(), "1.2-3");
    assert_eq!(pkg.version(), "1.2");
    pkg.epoch = Some("2".to_string());
    assert_eq!(pkg.full_version(), "2:1.2-3");
    assert_eq!(pkg.version(), "2:1.2");
}

#[test]
fn checksums_prefer_sha256_then_fall_back() {
    let mut pkg = Pkgbuild::default();
    pkg.md5sums = vec!["m".to_string()];
    assert_eq!(pkg.checksums(), vec!["m"]);
    pkg.b2sums = vec!["b".to_string()];
    assert_eq!(pkg.checksums(), vec!["b"]);
    pkg.sha512sums = vec!["s512".to_string()];
    assert_eq!(pkg.checksums(), vec!["s512"]);
    pkg.sha256sums = vec!["s256".to_string()];
    assert_eq!(pkg.checksums(), vec!["s256"]);
}

#[test]
fn strip_quotes_removes_one_level() {
    let pkg = Pkgbuild::default();
    assert_eq!(pkg.strip_quotes("\"hello\""), "hello");
    assert_eq!(pkg.strip_quotes("'hello'"), "hello");
    assert_eq!(pkg.strip_quotes("  plain  "), "plain");
    assert_eq!(pkg.strip_quotes("\"'nested'\""), "'nested'");
}

#[test]
fn array_elements_respect_quotes_and_comments() {
    let pkg = Pkgbuild::default();
    assert_eq!(pkg.parse_array_elements("'a b' c # d"), vec!["a b", "c"]);
    assert_eq!(pkg.parse_array_elements("x y)"), vec!["x", "y"]);
    assert_eq!(pkg.parse_array_elements("\"\" 'k'"), vec!["k"]);
}

#[test]
fn expansion_commutes_over_dollar_free_prefix() {
    let mut pkg = Pkgbuild::default();
    pkg.pkgname = "n".to_string();
    pkg.pkgver = "1".to_string();
    pkg.pkgrel = "1".to_string();
    let a = "cd there; ";
    let b = "tar xf $pkgname-$pkgver.tar";
    let whole = pkg.expand_variables(&format!("{}{}", a, b));
    let parts = format!("{}{}", pkg.expand_variables(a), pkg.expand_variables(b));
    assert_eq!(whole, parts);
}

#[test]
fn later_assignments_override_earlier_ones() {
    let pkg = Pkgbuild::parse("pkgname=a\npkgname=b\npkgver=1\npkgrel=1\n").unwrap();
    assert_eq!(pkg.pkgname, "b");
}

#[test]
fn release_accepts_a_leading_plus_sign() {
    let mut pkg = Pkgbuild::default();
    pkg.pkgrel = "+5".to_string();
    assert_eq!(pkg.release(), 5);
    pkg.pkgrel = "4294967296".to_string();
    assert_eq!(pkg.release(), 1);
}

#[test]
fn extract_function_body_stops_at_balance() {
    let pkg = Pkgbuild::default();
    let lines = vec![
        "build() {".to_string(),
        "  make".to_string(),
        "}".to_string(),
        "after=1".to_string(),
    ];
    let (body, end) = pkg.extract_function_body(&lines, 0);
    assert_eq!(body, "  make");
    assert_eq!(end, 2);
}

#[test]
fn parse_rejects_missing_name_or_version() {
    assert_eq!(Pkgbuild::parse("").err(), Some(RookError::Parse));
    assert_eq!(Pkgbuild::parse("pkgname=x\n").err(), Some(RookError::Parse));
    assert_eq!(Pkgbuild::parse("pkgver=1\n").err(), Some(RookError::Parse));
    assert!(Pkgbuild::parse("pkgname=x\npkgver=1\n").is_ok());
}
