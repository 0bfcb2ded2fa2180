//! The declarative system rebuild: the identifier of a system generation and
//! the build plan of the packages that a program declares.
use vstd::prelude::*;
use crate::ast::{TopLevel, SystemUnit, ConfigItem, Expr, STopLevel, SSystemUnit, SConfigItem, SExpr};
use crate::text::{push_char, lit, concat};

verus! {

/// The lowercase hexadecimal digit of `d`, for `d < 16`.
pub open spec fn hex_digit_char(d: int) -> char {
    if d < 10 {
        (d + 48) as char
    } else {
        (d + 87) as char
    }
}

/// Lowercase hexadecimal notation of a number, without leading zeros, as
/// `format!("{:x}", n)` writes it.
pub open spec fn hex_lower(n: nat) -> Seq<char>
    decreases n,
{
    if n < 16 {
        seq![hex_digit_char(n as int)]
    } else {
        hex_lower(n / 16) + seq![hex_digit_char((n % 16) as int)]
    }
}

/// The name of the generation whose configuration hashes to `hash`: `gen-`
/// and the first eight hexadecimal digits of the hash.
pub open spec fn generation_name(hash: u64) -> Seq<char> {
    "gen-"@ + hex_lower(hash as nat).take(8)
}

fn push_hex(s: &mut String, n: u64)
    ensures
        final(s)@ == old(s)@ + hex_lower(n as nat),
    decreases n,
{
    if n >= 16 {
        push_hex(s, n / 16);
    }
    let d: u8 = (n % 16) as u8;
    let c: char = if d < 10 { (d + 48u8) as char } else { (d + 87u8) as char };
    push_char(s, c);
    assert(final(s)@ =~= old(s)@ + hex_lower(n as nat));
}

proof fn lemma_hex_len_at_least(n: nat, k: nat)
    requires
        k >= 1,
        n >= pow16((k - 1) as nat),
    ensures
        hex_lower(n).len() >= k,
    decreases k,
{
    if k > 1 {
        assert(pow16((k - 1) as nat) == 16 * pow16((k - 2) as nat));
        let p = pow16((k - 2) as nat);
        assert(n / 16 >= p) by (nonlinear_arith)
            requires
                n >= 16 * p,
        ;
        lemma_hex_len_at_least(n / 16, (k - 1) as nat);
    }
}

proof fn lemma_hex_len(n: nat)
    requires
        n >= 0x1000_0000,
    ensures
        hex_lower(n).len() >= 8,
{
    reveal_with_fuel(pow16, 8);
    assert(pow16(7) == 0x1000_0000);
    lemma_hex_len_at_least(n, 8);
}

pub open spec fn pow16(k: nat) -> nat
    decreases k,
{
    if k == 0 {
        1
    } else {
        16 * pow16((k - 1) as nat)
    }
}

/// The generation identifier of a configuration hash. The hash must have at
/// least eight hexadecimal digits.
pub fn generation_id(hash: u64) -> (r: String)
    requires
        hash >= 0x1000_0000,
    ensures
        r@ == generation_name(hash),
{
    let mut hex = String::new();
    push_hex(&mut hex, hash);
    proof {
        assert(hex@ =~= hex_lower(hash as nat));
        lemma_hex_len(hash as nat);
    }
    let cs = crate::text::chars_of(hex.as_str());
    let mut r = lit("gen-");
    let mut i: usize = 0;
    while i < 8
        invariant
            i <= 8,
            cs@ == hex_lower(hash as nat),
            cs@.len() >= 8,
            r@ == "gen-"@ + cs@.take(i as int),
        decreases 8 - i,
    {
        push_char(&mut r, cs[i]);
        assert(cs@.take(i + 1) =~= cs@.take(i as int).push(cs@[i as int]));
        i = i + 1;
    }
    r
}

/// How a package is built.
#[derive(Debug, Clone, Copy, PartialEq, Eq, Structural)]
pub enum BuildKind {
    /// With `cargo build --release` in the package's directory.
    Cargo,
    /// By writing a configuration file into the generation.
    Config,
}

/// What the rebuild does for one package.
#[derive(Debug, Clone, PartialEq)]
pub struct PackagePlan {
    pub name: String,
    pub kind: BuildKind,
    /// The directory of the package (`path`, by default `.`).
    pub build_path: String,
    /// The manifest that `cargo` builds.
    pub manifest_path: String,
    /// The name of the configuration file in the generation.
    pub config_file: String,
    /// The text of the configuration file.
    pub config_text: String,
}

/// The value of the last `key = "..."` item of a configuration whose value is a
/// string literal, or `default` when there is none.
pub open spec fn config_string(items: Seq<SConfigItem>, key: Seq<char>, default: Seq<char>) -> Seq<char>
    decreases items.len(),
{
    if items.len() == 0 {
        default
    } else {
        let last = items.last();
        match last.value {
            SExpr::StringLit(s) => if last.key == key {
                s
            } else {
                config_string(items.drop_last(), key, default)
            },
            _ => config_string(items.drop_last(), key, default),
        }
    }
}

pub struct SPlan {
    pub name: Seq<char>,
    pub kind: BuildKind,
    pub build_path: Seq<char>,
    pub manifest_path: Seq<char>,
    pub config_file: Seq<char>,
    pub config_text: Seq<char>,
}

impl PackagePlan {
    pub open spec fn view(&self) -> SPlan {
        SPlan {
            name: self.name@,
            kind: self.kind,
            build_path: self.build_path@,
            manifest_path: self.manifest_path@,
            config_file: self.config_file@,
            config_text: self.config_text@,
        }
    }
}

/// The plan of one package: `source = "cargo"` builds with cargo in `path`;
/// any other source writes `<name>.conf`.
pub open spec fn package_plan(name: Seq<char>, config: Seq<SConfigItem>) -> SPlan {
    let source = config_string(config, "source"@, "static"@);
    let path = config_string(config, "path"@, "."@);
    SPlan {
        name,
        kind: if source == "cargo"@ { BuildKind::Cargo } else { BuildKind::Config },
        build_path: path,
        manifest_path: path + "/Cargo.toml"@,
        config_file: name + ".conf"@,
        config_text: "# Config for "@ + name + "\n"@,
    }
}

pub open spec fn unit_plans(units: Seq<SSystemUnit>) -> Seq<SPlan>
    decreases units.len(),
{
    if units.len() == 0 {
        Seq::empty()
    } else {
        let prev = unit_plans(units.drop_last());
        match units.last() {
            SSystemUnit::Package { name, config } => prev.push(package_plan(name, config)),
            SSystemUnit::Service { .. } => prev,
        }
    }
}

/// The packages of every `system` declaration of a program, in order; services
/// are not built.
pub open spec fn rebuild_plan(ast: Seq<STopLevel>) -> Seq<SPlan>
    decreases ast.len(),
{
    if ast.len() == 0 {
        Seq::empty()
    } else {
        let prev = rebuild_plan(ast.drop_last());
        match ast.last() {
            STopLevel::SystemDecl { units } => prev + unit_plans(units),
            _ => prev,
        }
    }
}

pub open spec fn plans_view(v: Seq<PackagePlan>) -> Seq<SPlan> {
    v.map_values(|p: PackagePlan| p.view())
}

fn x_config_string(items: &Vec<ConfigItem>, key: &str, default: &str) -> (r: String)
    ensures
        r@ == config_string(items@.map_values(|c: ConfigItem| c.view()), key@, default@),
{
    let ghost v = items@.map_values(|c: ConfigItem| c.view());
    let mut r = lit(default);
    let k = lit(key);
    let mut i: usize = 0;
    proof {
        assert(v.take(0) =~= Seq::<SConfigItem>::empty());
    }
    while i < items.len()
        invariant
            i <= items@.len(),
            v == items@.map_values(|c: ConfigItem| c.view()),
            k@ == key@,
            r@ == config_string(v.take(i as int), key@, default@),
        decreases items@.len() - i,
    {
        proof {
            assert(v.take(i + 1).drop_last() =~= v.take(i as int));
            assert(v.take(i + 1).last() == items@[i as int].view());
        }
        match &items[i].value {
            Expr::StringLit(s) => {
                if items[i].key == k {
                    r = s.clone();
                }
            },
            _ => {},
        }
        i = i + 1;
    }
    proof {
        assert(v.take(items@.len() as int) =~= v);
    }
    r
}

fn plan_package(name: &String, config: &Vec<ConfigItem>) -> (r: PackagePlan)
    ensures
        r.view() == package_plan(name@, config@.map_values(|c: ConfigItem| c.view())),
{
    let source = x_config_string(config, "source", "static");
    let path = x_config_string(config, "path", ".");
    let kind = if source == lit("cargo") { BuildKind::Cargo } else { BuildKind::Config };
    let manifest_path = concat(path.clone(), "/Cargo.toml");
    let config_file = concat(name.clone(), ".conf");
    let config_text = concat(concat(lit("# Config for "), name.as_str()), "\n");
    PackagePlan { name: name.clone(), kind, build_path: path, manifest_path, config_file, config_text }
}

/// The build plan of a program: for every package of every `system`
/// declaration, in order, how it is built. The source is the last string given
/// to `source` (by default `static`), the directory the last string given to
/// `path` (by default `.`).
pub fn package_plans(ast: &[TopLevel]) -> (r: Vec<PackagePlan>)
    ensures
        plans_view(r@) == rebuild_plan(ast@.map_values(|t: TopLevel| t.view())),
{
    let ghost tv = ast@.map_values(|t: TopLevel| t.view());
    let mut out: Vec<PackagePlan> = Vec::new();
    let mut i: usize = 0;
    proof {
        assert(tv.take(0) =~= Seq::<STopLevel>::empty());
        assert(plans_view(out@) =~= Seq::<SPlan>::empty());
    }
    while i < ast.len()
        invariant
            i <= ast@.len(),
            tv == ast@.map_values(|t: TopLevel| t.view()),
            plans_view(out@) == rebuild_plan(tv.take(i as int)),
        decreases ast@.len() - i,
    {
        proof {
            assert(tv.take(i + 1).drop_last() =~= tv.take(i as int));
            assert(tv.take(i + 1).last() == ast@[i as int].view());
        }
        match &ast[i] {
            TopLevel::SystemDecl { units } => {
                let ghost uv = units@.map_values(|u: SystemUnit| u.view());
                let ghost base = plans_view(out@);
                let mut j: usize = 0;
                proof {
                    assert(uv.take(0) =~= Seq::<SSystemUnit>::empty());
                    assert(plans_view(out@) =~= base + unit_plans(uv.take(0)));
                }
                while j < units.len()
                    invariant
                        j <= units@.len(),
                        uv == units@.map_values(|u: SystemUnit| u.view()),
                        plans_view(out@) == base + unit_plans(uv.take(j as int)),
                    decreases units@.len() - j,
                {
                    proof {
                        assert(uv.take(j + 1).drop_last() =~= uv.take(j as int));
                        assert(uv.take(j + 1).last() == units@[j as int].view());
                    }
                    match &units[j] {
                        SystemUnit::Package { name, config } => {
                            let p = plan_package(name, config);
                            let ghost before = out@;
                            out.push(p);
                            proof {
                                assert(plans_view(out@) =~= plans_view(before).push(p.view()));
                            }
                        },
                        SystemUnit::Service { .. } => {},
                    }
                    j = j + 1;
                }
                proof {
                    assert(uv.take(units@.len() as int) =~= uv);
                }
            },
            _ => {},
        }
        i = i + 1;
    }
    proof {
        assert(tv.take(ast@.len() as int) =~= tv);
    }
    out
}

} // verus!
