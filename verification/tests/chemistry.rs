use weighing_agent::advice::{
    explain_calculation_error, is_inorganic_material_like, suggest_precursor_fixes,
    suggest_sources_for_element,
};
use weighing_agent::arithmetic::Arithmetic;
use weighing_agent::calculation::{
    calculate_weighing_with_optional_volatiles, calculate_weighing_with_volatile_byproducts,
};
use weighing_agent::elements::atomic_weight;
use weighing_agent::equation::{format_coefficient, format_reaction_equation, format_reaction_term};
use weighing_agent::formula::{
    add_scaled, is_hydrate_separator, matching_close_bracket, molar_mass, parse_compound, AtomCount,
    Compound, FormulaError, FormulaParser,
};
use weighing_agent::presence::Presence;
use weighing_agent::solver::{solve_unique_linear_system, tolerance_number, CalculationError};
use weighing_agent::tools::{
    calculate_weighing_tool_output, validate_formula, CalculateWeighingArgs, ValidateFormulaArgs,
};
use weighing_agent::weighing::{
    calculate_weighing, is_gas_reactant, split_gas_reactants, WeighingResult,
};

/// IEEE binary64.
struct Binary64;

impl Arithmetic for Binary64 {
    type Number = f64;

    fn from_integer(n: u64) -> f64 {
        n as f64
    }

    fn plus(a: f64, b: f64) -> f64 {
        a + b
    }

    fn minus(a: f64, b: f64) -> f64 {
        a - b
    }

    fn times(a: f64, b: f64) -> f64 {
        a * b
    }

    fn over(a: f64, b: f64) -> f64 {
        a / b
    }

    fn negated(a: f64) -> f64 {
        -a
    }

    fn magnitude(a: f64) -> f64 {
        a.abs()
    }

    fn is_below(a: f64, b: f64) -> bool {
        a < b
    }

    fn is_at_most(a: f64, b: f64) -> bool {
        a <= b
    }

    fn is_ranked_after(a: f64, b: f64) -> bool {
        a.total_cmp(&b).is_gt()
    }

    fn is_finite(a: f64) -> bool {
        a.is_finite()
    }

    fn rounded(a: f64) -> f64 {
        a.round()
    }

    fn parse(text: &str) -> Option<f64> {
        text.parse().ok()
    }

    fn format_fixed(a: f64, decimals: usize) -> String {
        format!("{a:.decimals$}")
    }

    fn format_plain(a: f64) -> String {
        format!("{a}")
    }
}

fn read(formula: &str) -> Compound<f64> {
    parse_compound::<Binary64>(formula).unwrap()
}

fn read_all(formulas: &[&str]) -> Vec<Compound<f64>> {
    formulas.iter().map(|formula| read(formula)).collect()
}

fn atoms(compound: &Compound<f64>, element: &str) -> f64 {
    compound.count(element).unwrap()
}

fn refused(formula: &str) -> String {
    parse_compound::<Binary64>(formula).unwrap_err().message()
}

fn strings(texts: &[&str]) -> Vec<String> {
    texts.iter().map(|text| text.to_string()).collect()
}

#[test]
fn parses_formula_with_parentheses() {
    let compound = read("Ca(OH)2");

    assert_eq!(atoms(&compound, "Ca"), 1.0);
    assert_eq!(atoms(&compound, "O"), 2.0);
    assert_eq!(atoms(&compound, "H"), 2.0);
}

#[test]
fn parses_formula_with_decimal_stoichiometry_and_brackets() {
    let compound = read("(Li0.5La0.5)TiO3");

    assert_eq!(atoms(&compound, "Li"), 0.5);
    assert_eq!(atoms(&compound, "La"), 0.5);
    assert_eq!(atoms(&compound, "Ti"), 1.0);
    assert_eq!(atoms(&compound, "O"), 3.0);

    let bracketed = read("Ca[OH]2");
    assert_eq!(atoms(&bracketed, "Ca"), 1.0);
    assert_eq!(atoms(&bracketed, "O"), 2.0);
    assert_eq!(atoms(&bracketed, "H"), 2.0);
}

#[test]
fn parses_formula_with_fractional_stoichiometry() {
    let compound = read("LiNi1/3Co1/3Mn1/3O2");

    assert_eq!(atoms(&compound, "Li"), 1.0);
    assert!((atoms(&compound, "Ni") - 1.0 / 3.0).abs() < 1.0e-12);
    assert!((atoms(&compound, "Co") - 1.0 / 3.0).abs() < 1.0e-12);
    assert!((atoms(&compound, "Mn") - 1.0 / 3.0).abs() < 1.0e-12);
    assert_eq!(atoms(&compound, "O"), 2.0);
}

#[test]
fn calculates_decimal_composition_precursor_masses() {
    let target = read("Li0.5La0.5TiO3");
    let precursors = read_all(&["Li2O", "La2O3", "TiO2"]);

    let results = calculate_weighing::<Binary64>(&target, 1.0, &precursors).unwrap();

    assert_eq!(results.len(), 3);
    assert!((results[0].grams - 0.044256).abs() < 1.0e-5);
    assert!((results[1].grams - 0.482573).abs() < 1.0e-5);
    assert!((results[2].grams - 0.473171).abs() < 1.0e-5);
}

#[test]
fn calculates_with_common_volatile_byproducts() {
    let target = read("Li1.3Al0.3Ti1.7(PO4)3");
    let precursors = read_all(&["Li2CO3", "Al2O3", "TiO2", "NH4H2PO4"]);

    assert_eq!(
        calculate_weighing::<Binary64>(&target, 1.0, &precursors).unwrap_err(),
        CalculationError::Inconsistent
    );

    assert!(calculate_weighing_with_optional_volatiles::<Binary64>(
        &target,
        1.0,
        &precursors,
        Vec::new()
    )
    .is_err());

    let volatile_byproducts = read_all(&["CO2", "H2O", "NH3"]);
    let calculation = calculate_weighing_with_optional_volatiles::<Binary64>(
        &target,
        1.0,
        &precursors,
        volatile_byproducts,
    )
    .unwrap();

    assert_eq!(calculation.results.len(), 4);
    assert!((calculation.results[0].grams - 0.125267).abs() < 1.0e-5);
    assert!((calculation.results[1].grams - 0.039891).abs() < 1.0e-5);
    assert!((calculation.results[2].grams - 0.354123).abs() < 1.0e-5);
    assert!((calculation.results[3].grams - 0.900038).abs() < 1.0e-5);

    assert_eq!(calculation.volatile_byproducts.len(), 3);
    assert_eq!(calculation.volatile_byproducts[0].formula, "CO2");
    assert_eq!(calculation.volatile_byproducts[1].formula, "H2O");
    assert_eq!(calculation.volatile_byproducts[2].formula, "NH3");
    assert_eq!(
        calculation.reaction_equation,
        "0.65 Li2CO3 + 0.15 Al2O3 + 1.7 TiO2 + 3 NH4H2PO4 -> Li1.3Al0.3Ti1.7(PO4)3 + 0.65 CO2 + 4.5 H2O + 3 NH3"
    );
}

#[test]
fn calculates_with_gas_reactant_excluded_from_weighing_results() {
    let target = read("LaCoO3");
    let precursors = read_all(&["La2O3", "Co3O4", "O2"]);

    let calculation = calculate_weighing_with_optional_volatiles::<Binary64>(
        &target,
        10.0,
        &precursors,
        Vec::new(),
    )
    .unwrap();

    assert_eq!(calculation.results.len(), 2);
    assert_eq!(calculation.results[0].formula, "La2O3");
    assert_eq!(calculation.results[1].formula, "Co3O4");
    assert!((calculation.results[0].grams - 6.6265).abs() < 1.0e-4);
    assert!((calculation.results[1].grams - 3.2650).abs() < 1.0e-4);

    assert_eq!(calculation.gas_reactants.len(), 1);
    assert_eq!(calculation.gas_reactants[0].formula, "O2");
    assert!((calculation.gas_reactants[0].moles - 0.0033898).abs() < 1.0e-7);
    assert_eq!(
        calculation.reaction_equation,
        "0.5 La2O3 + 0.333333 Co3O4 + 0.083333 O2 -> LaCoO3"
    );
}

#[test]
fn calculates_lgps_precursor_masses() {
    let target = read("Li10GeP2S12");
    let precursors = read_all(&["Li2S", "GeS2", "P2S5"]);

    let results = calculate_weighing::<Binary64>(&target, 1.0, &precursors).unwrap();

    assert_eq!(results.len(), 3);
    assert!((results[0].grams - 0.390183).abs() < 1.0e-5);
    assert!((results[1].grams - 0.232292).abs() < 1.0e-5);
    assert!((results[2].grams - 0.377524).abs() < 1.0e-5);
}

#[test]
fn rejects_inconsistent_precursors() {
    let target = read("Li10GeP2S12");
    let precursors = read_all(&["Li2O", "GeO2", "P2O5"]);

    let error = calculate_weighing::<Binary64>(&target, 1.0, &precursors).unwrap_err();

    assert_eq!(error, CalculationError::Inconsistent);
}

#[test]
fn detects_non_unique_precursor_set() {
    let target = read("Li2O");
    let precursors = read_all(&["Li2O", "Li2O"]);

    let error = calculate_weighing::<Binary64>(&target, 1.0, &precursors).unwrap_err();

    assert_eq!(error, CalculationError::NotUnique);
}

#[test]
fn accepts_elemental_precursors() {
    let target = read("FeS");
    let precursors = read_all(&["Fe", "S"]);

    let results = calculate_weighing::<Binary64>(&target, 1.0, &precursors).unwrap();

    assert!((results[0].grams - 0.635288).abs() < 1.0e-5);
    assert!((results[1].grams - 0.364712).abs() < 1.0e-5);
}

#[test]
fn knows_the_atomic_weights() {
    let table = [
        ("H", 1.008),
        ("He", 4.002602),
        ("Li", 6.94),
        ("Be", 9.0121831),
        ("B", 10.81),
        ("C", 12.011),
        ("N", 14.007),
        ("O", 15.999),
        ("F", 18.998403163),
        ("Ne", 20.1797),
        ("Na", 22.98976928),
        ("Mg", 24.305),
        ("Al", 26.9815385),
        ("Si", 28.085),
        ("P", 30.973761998),
        ("S", 32.06),
        ("Cl", 35.45),
        ("Ar", 39.948),
        ("K", 39.0983),
        ("Ca", 40.078),
        ("Sc", 44.955908),
        ("Ti", 47.867),
        ("V", 50.9415),
        ("Cr", 51.9961),
        ("Mn", 54.938044),
        ("Fe", 55.845),
        ("Co", 58.933194),
        ("Ni", 58.6934),
        ("Cu", 63.546),
        ("Zn", 65.38),
        ("Ga", 69.723),
        ("Ge", 72.63),
        ("As", 74.921595),
        ("Se", 78.971),
        ("Br", 79.904),
        ("Kr", 83.798),
        ("Rb", 85.4678),
        ("Sr", 87.62),
        ("Y", 88.90584),
        ("Zr", 91.224),
        ("Nb", 92.90637),
        ("Mo", 95.95),
        ("Ru", 101.07),
        ("Rh", 102.9055),
        ("Pd", 106.42),
        ("Ag", 107.8682),
        ("Cd", 112.414),
        ("In", 114.818),
        ("Sn", 118.71),
        ("Sb", 121.76),
        ("Te", 127.6),
        ("I", 126.90447),
        ("Cs", 132.90545196),
        ("Ba", 137.327),
        ("La", 138.90547),
        ("Ce", 140.116),
        ("Pr", 140.90766),
        ("Nd", 144.242),
        ("Sm", 150.36),
        ("Eu", 151.964),
        ("Gd", 157.25),
        ("Tb", 158.92535),
        ("Dy", 162.5),
        ("Ho", 164.93033),
        ("Er", 167.259),
        ("Tm", 168.93422),
        ("Yb", 173.045),
        ("Lu", 174.9668),
        ("Hf", 178.49),
        ("Ta", 180.94788),
        ("W", 183.84),
        ("Re", 186.207),
        ("Os", 190.23),
        ("Ir", 192.217),
        ("Pt", 195.084),
        ("Au", 196.966569),
        ("Hg", 200.592),
        ("Tl", 204.38),
        ("Pb", 207.2),
        ("Bi", 208.9804),
        ("Th", 232.0377),
        ("U", 238.02891),
    ];
    for (element, weight) in table {
        assert_eq!(atomic_weight::<Binary64>(element), Some(weight), "{element}");
    }
    assert_eq!(atomic_weight::<Binary64>("Xx"), None);
    assert_eq!(atomic_weight::<Binary64>("Xe"), None);
    assert_eq!(atomic_weight::<Binary64>("li"), None);
    assert_eq!(atomic_weight::<Binary64>(""), None);
}

#[test]
fn sums_molar_masses() {
    assert_eq!(read("H2O").molar_mass, 1.008 * 2.0 + 15.999);
    assert_eq!(read("Fe").molar_mass, 55.845);
    let unknown = vec![AtomCount { element: "Zz".to_string(), count: 1.0 }];
    assert_eq!(
        molar_mass::<Binary64>(&unknown).unwrap_err().message(),
        "未知の元素記号です: Zz"
    );
}

#[test]
fn keeps_elements_in_order_once_each() {
    let compound = read(" NH4H2PO4 ");
    let elements: Vec<&str> = compound.atoms.iter().map(|atom| atom.element.as_str()).collect();
    assert_eq!(elements, ["H", "N", "O", "P"]);
    assert_eq!(atoms(&compound, "H"), 6.0);
    assert_eq!(compound.formula, "NH4H2PO4");
    assert_eq!(compound.count("Li"), None);
}

#[test]
fn nests_groups() {
    let compound = read("{Al[(OH)2]3}2");
    assert_eq!(atoms(&compound, "Al"), 2.0);
    assert_eq!(atoms(&compound, "O"), 12.0);
    assert_eq!(atoms(&compound, "H"), 12.0);
}

#[test]
fn refuses_what_is_no_formula() {
    assert_eq!(refused("  "), "空の化学式です");
    assert_eq!(refused("CuSO4·5H2O"), "水和物やドット区切りの式は未対応です");
    assert_eq!(refused("CuSO4・5H2O"), "水和物やドット区切りの式は未対応です");
    assert_eq!(refused("Zz2"), "未知の元素記号です: Zz");
    assert_eq!(refused("Li-O"), "化学式として読めない文字です: -");
    assert_eq!(refused("Li/2"), "化学式として読めない文字です: /");
    assert_eq!(refused("Li.5"), "化学式として読めない文字です: .");
    assert_eq!(refused("2Li"), "化学式として読めない文字です: 2");
    assert_eq!(refused("(Li]"), "閉じ括弧の対応が不正です");
    assert_eq!(refused("Li)"), "閉じ括弧の対応が不正です");
    assert_eq!(refused("(Li"), "括弧が閉じていません");
    assert_eq!(refused("Li1.2.3"), "数値の小数点が多すぎます");
    assert_eq!(refused("Li0"), "元素数は0より大きい必要があります");
    assert_eq!(refused("Li1/0"), "元素数は0より大きい必要があります");
    assert_eq!(refused("Li1/"), "分数の分母がありません");
    assert_eq!(refused("()2"), "元素が含まれていません");
}

#[test]
fn words_the_error_for_a_denominator() {
    assert_eq!(
        FormulaError::ZeroDenominator.message(),
        "分数の分母は0より大きい必要があります"
    );
}

#[test]
fn reads_symbols_and_counts() {
    let chars: Vec<char> = "ClOx".chars().collect();
    let mut parser = FormulaParser { chars: &chars, index: 0 };
    assert_eq!(parser.parse_element(), "Cl");
    assert_eq!(parser.index, 2);
    assert_eq!(parser.parse_element(), "Ox");
    assert_eq!(parser.index, 4);
    let chars: Vec<char> = "CO".chars().collect();
    let mut parser = FormulaParser { chars: &chars, index: 0 };
    assert_eq!(parser.parse_element(), "C");
    assert_eq!(parser.index, 1);

    assert_eq!(atoms(&read("Cl12.5/2"), "Cl"), 6.25);
    assert_eq!(atoms(&read("Cl1/0.5"), "Cl"), 2.0);
    assert_eq!(atoms(&read("Cl"), "Cl"), 1.0);
}

#[test]
fn matches_brackets_and_separators() {
    assert_eq!(matching_close_bracket('('), ')');
    assert_eq!(matching_close_bracket('['), ']');
    assert_eq!(matching_close_bracket('{'), '}');
    assert!(is_hydrate_separator('・'));
    assert!(is_hydrate_separator('·'));
    assert!(is_hydrate_separator('•'));
    assert!(!is_hydrate_separator('.'));
}

#[test]
fn adds_scaled_groups() {
    let mut sum = read("LiO").atoms;
    add_scaled::<Binary64>(&mut sum, &read("O2Fe").atoms, 1.5);
    let listed: Vec<(&str, f64)> =
        sum.iter().map(|atom| (atom.element.as_str(), atom.count)).collect();
    assert_eq!(listed, [("Fe", 1.5), ("Li", 1.0), ("O", 4.0)]);
}

#[test]
fn solves_systems_with_one_solution() {
    let rows = vec![vec![2.0, 1.0, 4.0], vec![1.0, -1.0, -1.0]];
    assert_eq!(solve_unique_linear_system::<Binary64>(rows, 2).unwrap(), [1.0, 2.0]);
    let rows = vec![vec![1.0, 1.0], vec![1.0, 2.0]];
    assert_eq!(
        solve_unique_linear_system::<Binary64>(rows, 1).unwrap_err(),
        CalculationError::Inconsistent
    );
    let rows = vec![vec![1.0, 1.0, 2.0]];
    assert_eq!(
        solve_unique_linear_system::<Binary64>(rows, 2).unwrap_err(),
        CalculationError::NotUnique
    );
    assert_eq!(tolerance_number::<Binary64>(), 1.0e-8);
}

#[test]
fn a_residue_within_the_tolerance_does_not_contradict() {
    let rows = vec![vec![1.0, 1.0], vec![0.0, 0.9e-8]];
    assert_eq!(solve_unique_linear_system::<Binary64>(rows, 1).unwrap(), [1.0]);
    let rows = vec![vec![1.0, 1.0], vec![0.0, 1.1e-8]];
    assert_eq!(
        solve_unique_linear_system::<Binary64>(rows, 1).unwrap_err(),
        CalculationError::Inconsistent
    );
}

#[test]
fn refuses_negative_amounts() {
    let target = read("LiO");
    let precursors = read_all(&["Li2O3", "O2"]);
    match calculate_weighing::<Binary64>(&target, 1.0, &precursors).unwrap_err() {
        CalculationError::NegativeAmount { formula, moles } => {
            assert_eq!(formula, "O2");
            assert!((moles + 0.25 / target.molar_mass).abs() < 1.0e-12);
        }
        error => panic!("unexpected error: {error:?}"),
    }
}

#[test]
fn amounts_balance_elements_and_mass() {
    let target = read("Li1.3Al0.3Ti1.7(PO4)3");
    let precursors = read_all(&["Li2CO3", "Al2O3", "TiO2", "NH4H2PO4"]);
    let byproducts = read_all(&["CO2", "H2O", "NH3"]);
    let mass = 2.5;
    let calculation = calculate_weighing_with_volatile_byproducts::<Binary64>(
        &target,
        mass,
        &precursors,
        read_all(&["CO2", "H2O", "NH3"]),
    )
    .unwrap();
    let target_moles = mass / target.molar_mass;
    for element in ["Li", "Al", "Ti", "P", "O", "C", "N", "H"] {
        let part = |compounds: &[Compound<f64>], amounts: &[WeighingResult<f64>]| -> f64 {
            compounds
                .iter()
                .zip(amounts)
                .map(|(compound, amount)| compound.count(element).unwrap_or(0.0) * amount.moles)
                .sum()
        };
        let input = part(&precursors, &calculation.results);
        let output = target.count(element).unwrap_or(0.0) * target_moles
            + part(&byproducts, &calculation.volatile_byproducts);
        assert!((input - output).abs() < 1.0e-9, "{element}");
    }
    let used: f64 = calculation.results.iter().map(|amount| amount.grams).sum();
    let released: f64 = calculation.volatile_byproducts.iter().map(|amount| amount.grams).sum();
    assert!((used - mass - released).abs() < 1.0e-9);
    assert!(calculation.results.iter().all(|amount| amount.moles >= 0.0));
}

#[test]
fn parts_gases_from_the_rest() {
    assert!(is_gas_reactant(&read("O2")));
    assert!(is_gas_reactant(&read("Ar")));
    assert!(!is_gas_reactant(&read("O")));
    let precursors = read_all(&["Fe", "O2", "N2"]);
    let amount = |formula: &str, moles: f64| WeighingResult {
        formula: formula.to_string(),
        moles,
        grams: moles,
    };
    let all = vec![amount("Fe", 1.0), amount("O2", 0.5), amount("N2", 0.0)];
    let (weighed, gases) = split_gas_reactants::<Binary64>(&precursors, all);
    let names = |list: &[WeighingResult<f64>]| -> Vec<String> {
        list.iter().map(|amount| amount.formula.clone()).collect()
    };
    assert_eq!(names(&weighed), ["Fe", "N2"]);
    assert_eq!(names(&gases), ["O2"]);
}

#[test]
fn byproducts_that_do_not_arise_are_left_out() {
    let target = read("Li2O");
    let precursors = read_all(&["Li2CO3"]);
    let calculation = calculate_weighing_with_optional_volatiles::<Binary64>(
        &target,
        1.0,
        &precursors,
        read_all(&["CO2", "H2O"]),
    )
    .unwrap();
    assert_eq!(calculation.volatile_byproducts.len(), 1);
    assert_eq!(calculation.volatile_byproducts[0].formula, "CO2");
    assert_eq!(calculation.reaction_equation, "Li2CO3 -> Li2O + CO2");
}

#[test]
fn the_equation_names_the_byproduct_that_forms() {
    let calculation = calculate_weighing_with_volatile_byproducts::<Binary64>(
        &read("CaO"),
        56.077,
        &read_all(&["CaCO3"]),
        read_all(&["H2O", "CO2"]),
    )
    .unwrap();
    assert_eq!(calculation.volatile_byproducts.len(), 1);
    assert_eq!(calculation.volatile_byproducts[0].formula, "CO2");
    assert_eq!(calculation.reaction_equation, "CaCO3 -> CaO + CO2");

    let calculation = calculate_weighing_with_optional_volatiles::<Binary64>(
        &read("Li3PO4"),
        1.0,
        &read_all(&["Li2CO3", "NH4H2PO4"]),
        read_all(&["SO2", "NH3", "Cl2", "H2O", "CO2"]),
    )
    .unwrap();
    assert_eq!(
        calculation.reaction_equation,
        "1.5 Li2CO3 + NH4H2PO4 -> Li3PO4 + NH3 + 1.5 H2O + 1.5 CO2"
    );
}

#[test]
fn brackets_multiply() {
    let inner = read("LiNi1/3O2(OH)3");
    for (count, value) in [("2", 2.0), ("0.5", 0.5), ("10", 10.0)] {
        for (open, close) in [('(', ')'), ('[', ']'), ('{', '}')] {
            let whole = read(&format!("{open}LiNi1/3O2(OH)3{close}{count}"));
            assert_eq!(whole.atoms.len(), inner.atoms.len());
            for (outer, atom) in whole.atoms.iter().zip(&inner.atoms) {
                assert_eq!(outer.element, atom.element);
                assert_eq!(outer.count, atom.count * value);
            }
        }
    }
}

#[test]
fn writes_coefficients() {
    assert_eq!(format_coefficient::<Binary64>(2.0), "2");
    assert_eq!(format_coefficient::<Binary64>(2.00000001), "2");
    assert_eq!(format_coefficient::<Binary64>(0.65), "0.65");
    assert_eq!(format_coefficient::<Binary64>(1.0 / 3.0), "0.333333");
    assert_eq!(format_coefficient::<Binary64>(1.0e-9), "0");
    assert_eq!(format_coefficient::<Binary64>(0.0000004), "0");
    assert_eq!(format_coefficient::<Binary64>(10.5), "10.5");
    assert_eq!(format_reaction_term::<Binary64>(1.0, "Li2O"), "Li2O");
    assert_eq!(format_reaction_term::<Binary64>(1.00000001, "Li2O"), "Li2O");
    assert_eq!(format_reaction_term::<Binary64>(1.5, "Li2O"), "1.5 Li2O");
}

#[test]
fn writes_equations() {
    let target = read("FeS");
    let precursors = read_all(&["Fe", "S"]);
    let results = calculate_weighing::<Binary64>(&target, 1.0, &precursors).unwrap();
    let moles = 1.0 / target.molar_mass;
    assert_eq!(
        format_reaction_equation::<Binary64>(&precursors, &results, &target, moles, &[], &[]),
        "Fe + S -> FeS"
    );
}

#[test]
fn tells_organic_from_inorganic() {
    assert!(!is_inorganic_material_like(&read("C6H12O6")));
    assert!(!is_inorganic_material_like(&read("CHCl3")));
    assert!(is_inorganic_material_like(&read("CO2")));
    assert!(is_inorganic_material_like(&read("NaHCO3")));
    assert!(is_inorganic_material_like(&read("H2O")));
}

#[test]
fn names_sources_of_elements() {
    let sulfide = read("Li10GeP2S12");
    let oxide = read("LiGePO4Si");
    let metal = read("FeNi");
    let sources = suggest_sources_for_element::<f64>;
    assert_eq!(sources("Li", &sulfide), ["Li2S"]);
    assert_eq!(sources("Li", &oxide), ["Li2O", "Li2CO3"]);
    assert_eq!(sources("Li", &metal), ["Liを含む原料"]);
    assert_eq!(sources("Na", &sulfide), ["Na2S"]);
    assert_eq!(sources("Na", &oxide), ["Na2O", "Na2CO3"]);
    assert_eq!(sources("K", &sulfide), ["K2S"]);
    assert_eq!(sources("K", &oxide), ["K2O", "K2CO3"]);
    assert_eq!(sources("P", &sulfide), ["P2S5"]);
    assert_eq!(sources("P", &oxide), ["P2O5", "NH4H2PO4"]);
    assert_eq!(sources("Si", &sulfide), ["Siを含む原料"]);
    assert_eq!(sources("Si", &oxide), ["SiO2"]);
    assert_eq!(sources("Ge", &sulfide), ["GeS2"]);
    assert_eq!(sources("Ge", &oxide), ["GeO2"]);
    assert_eq!(sources("S", &metal), ["硫化物原料"]);
    assert_eq!(sources("O", &metal), ["酸化物原料"]);
    assert_eq!(sources("Fe", &metal), ["Feを含む原料"]);
}

#[test]
fn advises_on_precursors() {
    let target = read("Li10GeP2S12");
    assert_eq!(
        suggest_precursor_fixes(&target, &read_all(&["Li2O", "GeO2"])),
        ["P2S5", "硫化物原料", "酸化物ではなく硫化物原料"]
    );
    assert!(suggest_precursor_fixes(&target, &read_all(&["Li2S", "GeS2", "P2S5"])).is_empty());
    assert_eq!(
        suggest_precursor_fixes(&read("Li2O"), &read_all(&["Li2S", "O2"])),
        ["硫化物ではなく酸化物原料"]
    );
}

#[test]
fn advises_on_nothing_else() {
    assert_eq!(
        suggest_precursor_fixes(&read("Na3PS4"), &read_all(&["Li2S"])),
        ["Na2S", "P2S5"]
    );
    assert_eq!(
        suggest_precursor_fixes(&read("Li2SO4"), &read_all(&["Li2S", "Li2O"])),
        ["硫化物ではなく酸化物原料", "酸化物ではなく硫化物原料"]
    );
}

#[test]
fn explains_refusals() {
    let target = read("Li2O");
    let complete = read_all(&["Li2O"]);
    assert_eq!(
        explain_calculation_error::<Binary64>(&CalculationError::Inconsistent, &target, &complete),
        "元素収支が一致しません。目的組成に必要な元素が不足しているか、余分な元素が原料に含まれています。"
    );
    assert_eq!(
        explain_calculation_error::<Binary64>(
            &CalculationError::NotUnique,
            &target,
            &read_all(&["Li"])
        ),
        "原料の組み合わせから一意な秤量値を決められません。原料を減らすか、独立した元素源を追加してください。\nもしかして 酸化物原料 では？"
    );
    let negative = CalculationError::NegativeAmount { formula: "O2".to_string(), moles: -0.25 };
    assert_eq!(
        explain_calculation_error::<Binary64>(&negative, &target, &complete),
        "O2 が負の使用量 (-0.250000 mol) になりました。原料の組み合わせが目的組成に合っていません。"
    );
}

fn validate(formula: &str) -> (bool, String, String, usize, Option<f64>) {
    let args = ValidateFormulaArgs { formula: formula.to_string() };
    let output = validate_formula::<Binary64>(args);
    (
        output.valid,
        output.formula,
        output.message,
        output.elements.len(),
        output.molar_mass_g_per_mol,
    )
}

#[test]
fn examines_formulas() {
    assert_eq!(
        validate(" Fe "),
        (true, "Fe".to_string(), "valid".to_string(), 1, Some(55.845))
    );
    assert_eq!(
        validate("CH4"),
        (
            false,
            "CH4".to_string(),
            "無機材料の組成として扱いにくい入力です。".to_string(),
            2,
            Some(12.011 + 1.008 * 4.0)
        )
    );
    assert_eq!(
        validate(" Zz "),
        (false, " Zz ".to_string(), "未知の元素記号です: Zz".to_string(), 0, None)
    );
}

fn ask(
    target: &str,
    mass: f64,
    precursors: &[&str],
    byproducts: &[&str],
) -> weighing_agent::tools::CalculateWeighingOutput<f64> {
    calculate_weighing_tool_output::<Binary64>(CalculateWeighingArgs {
        target_formula: target.to_string(),
        target_mass_g: mass,
        precursor_formulas: strings(precursors),
        volatile_byproduct_formulas: strings(byproducts),
    })
}

#[test]
fn answers_a_request() {
    let output = ask(" FeS ", 1.0, &["Fe", "S"], &[]);
    assert!(output.ok);
    assert_eq!(output.target_formula, "FeS");
    assert_eq!(output.target_mass_g, 1.0);
    assert_eq!(output.results.len(), 2);
    assert_eq!(output.reaction_equation.as_deref(), Some("Fe + S -> FeS"));
    assert_eq!(output.error, None);
    assert!(output.suggestions.is_empty());

    let output = ask("Li2O", 1.0, &["Li2CO3"], &["CO2"]);
    assert_eq!(output.reaction_equation.as_deref(), Some("Li2CO3 -> Li2O + CO2"));
    assert_eq!(output.volatile_byproducts.len(), 1);
}

#[test]
fn answers_a_request_that_is_refused() {
    let error = |target: &str, mass: f64, precursors: &[&str], byproducts: &[&str]| -> String {
        let output = ask(target, mass, precursors, byproducts);
        assert!(!output.ok);
        assert!(output.results.is_empty());
        assert!(output.gas_reactants.is_empty());
        assert!(output.volatile_byproducts.is_empty());
        assert_eq!(output.reaction_equation, None);
        assert!(output.suggestions.is_empty());
        output.error.unwrap()
    };
    assert_eq!(error("Zz", 1.0, &["Fe"], &[]), "目的組成が不正です: 未知の元素記号です: Zz");
    assert_eq!(
        error("CH4", 1.0, &["Fe"], &[]),
        "目的組成が無機材料の組成として扱いにくい入力です。"
    );
    for mass in [0.0, -1.0, f64::NAN, f64::INFINITY] {
        assert_eq!(
            error("FeS", mass, &["Fe", "S"], &[]),
            "目標質量は0より大きいg単位の数値で指定してください。"
        );
    }
    assert_eq!(
        error("FeS", 1.0, &["Fe", "Zz", "CH4"], &[]),
        "原料 Zz が不正です: 未知の元素記号です: Zz"
    );
    assert_eq!(
        error("FeS", 1.0, &["Fe", "CH4", "Zz"], &[]),
        "原料 CH4 は無機材料の組成として扱いにくい入力です。"
    );
    assert_eq!(
        error("FeS", 1.0, &["Fe", "S"], &["("]),
        "揮発副生成物 ( が不正です: 括弧が閉じていません"
    );
    assert_eq!(
        error("FeS", 1.0, &["Fe", "S", "FeS"], &[]),
        "原料の組み合わせから一意な秤量値を決められません。原料を減らすか、独立した元素源を追加してください。"
    );
}

#[test]
fn advises_where_amounts_cannot_be_computed() {
    let output = ask("FeS", 1.0, &["Fe"], &[]);
    assert!(!output.ok);
    assert_eq!(
        output.error.as_deref(),
        Some("元素収支が一致しません。目的組成に必要な元素が不足しているか、余分な元素が原料に含まれています。\nもしかして 硫化物原料 では？")
    );
    assert_eq!(output.suggestions, ["硫化物原料"]);
}

#[test]
fn amounts_are_proportional_to_the_mass() {
    let target = read("Li10GeP2S12");
    let precursors = read_all(&["Li2S", "GeS2", "P2S5"]);
    let once = calculate_weighing::<Binary64>(&target, 1.0, &precursors).unwrap();
    let thrice = calculate_weighing::<Binary64>(&target, 3.0, &precursors).unwrap();
    for (small, large) in once.iter().zip(&thrice) {
        assert_eq!(small.formula, large.formula);
        assert!((3.0 * small.moles - large.moles).abs() < 1.0e-12);
        assert!((3.0 * small.grams - large.grams).abs() < 1.0e-12);
    }
}

#[test]
fn reads_formulas_with_the_coarsest_numbers() {
    let compound = parse_compound::<Presence>("Li2(OH)10").unwrap();
    assert_eq!(compound.count("Li"), Some(true));
    assert_eq!(compound.count("H"), Some(true));
    assert_eq!(compound.count("Fe"), None);
    assert_eq!(
        parse_compound::<Presence>("Li0").unwrap_err().message(),
        "元素数は0より大きい必要があります"
    );
    assert_eq!(Presence::parse("0.03"), Some(true));
    assert_eq!(Presence::parse("0.00"), Some(false));
    assert_eq!(Presence::parse("1e3"), None);
    assert_eq!(Presence::parse(""), None);
    assert_eq!(Presence::format_plain(Presence::from_integer(3)), "1");
    assert_eq!(Presence::format_fixed(Presence::from_integer(0), 2), "0");
}

#[test]
fn a_compound_holds_the_elements_that_are_written() {
    for (formula, written) in [
        ("Li10GeP2S12", vec!["Ge", "Li", "P", "S"]),
        ("Ca(OH)2", vec!["Ca", "H", "O"]),
        ("[Co(NH3)6]Cl3", vec!["Cl", "Co", "H", "N"]),
        ("LiNi1/3Co1/3Mn1/3O2", vec!["Co", "Li", "Mn", "Ni", "O"]),
        ("CO", vec!["C", "O"]),
        ("Co", vec!["Co"]),
        ("LiLi2Li", vec!["Li"]),
    ] {
        let compound = read(formula);
        let held: Vec<&str> = compound.atoms.iter().map(|atom| atom.element.as_str()).collect();
        assert_eq!(held, written, "{formula}");
    }
}

#[test]
fn brackets_multiply_counts() {
    let inner = read("Fe2(SO4)3");
    let whole = read("{Fe2(SO4)3}2.5");
    assert_eq!(whole.formula, "{Fe2(SO4)3}2.5");
    assert_eq!(whole.atoms.len(), inner.atoms.len());
    for atom in &inner.atoms {
        assert_eq!(atoms(&whole, &atom.element), atom.count * 2.5);
    }
}
