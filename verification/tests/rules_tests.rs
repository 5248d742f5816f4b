use pystaleds::ast_parsing::{FunctionInfo, FunctionLocation};
use pystaleds::rules_checking::{
    is_function_info_valid, respects_rules, respects_rules_through_lexing, DocstringStyle,
};

fn get_parser() -> tree_sitter::Parser {
    let mut parser = tree_sitter::Parser::new();

    parser
        .set_language(&tree_sitter_python::LANGUAGE.into())
        .expect("should be able to load Python grammar");

    parser
}

#[test]
fn test_success_no_docstring() {
    let function_info = FunctionInfo {
        params: &[("x", Some("int")), ("y", Some("str"))],
        docstring: None,
        function_name: FunctionLocation::Name(""),
    };

    assert!(is_function_info_valid(
        &function_info,
        false,
        true,
        true,
        true,
        true,
        DocstringStyle::AutoDetect
    ));

    assert!(!is_function_info_valid(
        &function_info,
        false,
        false,
        true,
        true,
        true,
        DocstringStyle::AutoDetect
    ));
}

#[test]
fn test_out_of_order() {
    let function_info = FunctionInfo {
        params: &[("x", Some("int")), ("y", Some("str"))],
        docstring: Some(
            r#"
                """
                Hello!

                Args:
                    y: Nope.
                    x: Hehehe.
                """"#,
        ),
        function_name: FunctionLocation::Name(""),
    };

    assert!(!is_function_info_valid(
        &function_info,
        false,
        true,
        true,
        true,
        true,
        DocstringStyle::Google
    ));

    let function_info = FunctionInfo {
        params: &[("x", Some("int")), ("y", Some("str"))],
        docstring: Some(
            r#"
                """
                Hello!

                Args:
                    x: Hehehe.
                    y: Nope.
                """"#,
        ),
        function_name: FunctionLocation::Name(""),
    };

    assert!(is_function_info_valid(
        &function_info,
        false,
        true,
        true,
        true,
        true,
        DocstringStyle::Google
    ));

    let function_info = FunctionInfo {
        params: &[("x", Some("int")), ("y", Some("str"))],
        docstring: Some(
            r#"
                """
                Hello!

                Parameters
                ----------
                y
                    Nope
                x
                    Hehehe
                """"#,
        ),
        function_name: FunctionLocation::Name(""),
    };

    assert!(!is_function_info_valid(
        &function_info,
        false,
        true,
        true,
        true,
        true,
        DocstringStyle::Numpy
    ));

    let function_info = FunctionInfo {
        params: &[("x", Some("int")), ("y", Some("str"))],
        docstring: Some(
            r#"
                """
                Hello!

                Parameters
                ----------
                x
                    Hehehe
                y
                    Nope.

                Returns
                ------
                ...
                """"#,
        ),
        function_name: FunctionLocation::Name(""),
    };

    assert!(is_function_info_valid(
        &function_info,
        false,
        true,
        true,
        true,
        true,
        DocstringStyle::Numpy
    ));
}

#[test]
fn rules_checking_test_check_function_info() {
    let function_info = FunctionInfo {
        params: &[("x", Some("int")), ("y", Some("str"))],
        docstring: Some(
            r#"
                """
                Hello!

                Args:
                    x (int): Hehehe.
                    y: Nope.

                Returns:
                    ...
                """"#,
        ),
        function_name: FunctionLocation::Name(""),
    };

    assert!(is_function_info_valid(
        &function_info,
        false,
        false,
        false,
        true,
        true,
        DocstringStyle::Google
    ));

    assert!(is_function_info_valid(
        &function_info,
        false,
        false,
        false,
        true,
        true,
        DocstringStyle::AutoDetect
    ));
}

#[test]
fn ignore_edge_case() {
    let function_info = FunctionInfo {
        params: &[("x", Some("int")), ("y", Some("str"))],
        docstring: Some(
            r#"
                """
                Hello!

                Args:
                    x (int): Hehehe.
                    KLJZXKLC
                    y: Nope.

                Returns:
                    ...
                """"#,
        ),
        function_name: FunctionLocation::Name(""),
    };

    assert!(is_function_info_valid(
        &function_info,
        false,
        false,
        false,
        true,
        true,
        DocstringStyle::Google
    ));
}

#[test]
fn test_more_and_less_args() {
    let mut parser = get_parser();

    let source_code = r#"def sub(x, y):
    """This is a multi-line docstring.

    And this is the rest.
    Args:
        x: Hehehe.
        y: Nope.
    """
    return x-y
"#;

    assert!(respects_rules(
        &mut parser,
        source_code,
        None,
        false,
        true,
        true,
        true,
        false,
        DocstringStyle::Google,
    ));

    assert!(respects_rules_through_lexing(
        source_code,
        false,
        true,
        true,
        true,
        true,
        DocstringStyle::Google,
    ));

    let source_code = r#"def sub(x, y):
    """This is a multi-line docstring.

    And this is the rest.
    Args:
        y: Nope.
    """
    return x-y
"#;

    assert!(!respects_rules(
        &mut parser,
        source_code,
        None,
        false,
        true,
        true,
        true,
        true,
        DocstringStyle::Google,
    ));

    assert!(!respects_rules_through_lexing(
        source_code,
        false,
        true,
        true,
        true,
        true,
        DocstringStyle::Google,
    ));

    let source_code = r#"def sub(x, y):
    """This is a multi-line docstring.

    And this is the rest.
    Args:
        x: Hehe.
        y: Nope.
        z: This shouldn't exist.
    """
    return x-y
"#;

    assert!(!respects_rules(
        &mut parser,
        source_code,
        None,
        false,
        true,
        true,
        true,
        true,
        DocstringStyle::Google,
    ));

    assert!(!respects_rules_through_lexing(
        source_code,
        false,
        true,
        true,
        true,
        true,
        DocstringStyle::Google,
    ));
}

#[test]
fn missing_args_docstring() {
    let mut parser = get_parser();

    let source_code = r#"def add(x: int,y):
    """This is a docstring."""
    return x+y

def sub(x, y):
    """This is a multi-line docstring.

    And this is the rest.
    Args:
        x (int): Hehehe.
        y (int): Nope.
    """
    return x-y

def other_func(x,y,z):
    """This is just a throw-away string!"""
    return x+y+2*z
"#;

    assert!(!respects_rules(
        &mut parser,
        source_code,
        None,
        false,
        false,
        false,
        true,
        true,
        DocstringStyle::Google,
    ));

    assert!(!respects_rules_through_lexing(
        source_code,
        false,
        false,
        false,
        true,
        true,
        DocstringStyle::Google,
    ))
}

#[test]
fn rules_checking_test_file() {
    let mut parser = get_parser();

    let source_code = r#"def add(x: int,y):
    """This is a docstring."""
    return x+y

def sub(x, y):
    """This is a multi-line docstring.

    And this is the rest.
    Args:
        x (int): Hehehe.
        y (int): Nope.
    """
    return x-y

def other_func(x,y,z):
    """This is just a throw-away string!"""
    return x+y+2*z
"#;

    assert!(respects_rules(
        &mut parser,
        source_code,
        None,
        false,
        false,
        true,
        true,
        true,
        DocstringStyle::Google,
    ));

    assert!(respects_rules_through_lexing(
        source_code,
        false,
        false,
        true,
        true,
        true,
        DocstringStyle::Google,
    ));
}

#[test]
fn rules_checking_test_nesting() {
    let mut parser = get_parser();

    let source_code = r#"def add(x: int,y):
    """This is a docstring."""
    def sub(x: int, y: int):
        """This is a nested docstring.

        Args:
            x (int): Haha.
            y (str): Should error!
        """
        return x-y
    return x+y
"#;

    assert!(!respects_rules(
        &mut parser,
        source_code,
        None,
        false,
        true,
        true,
        false,
        true,
        DocstringStyle::Google,
    ));

    assert!(!respects_rules_through_lexing(
        source_code,
        false,
        true,
        true,
        false,
        true,
        DocstringStyle::Google,
    ));

    let source_code = r#"def add(x: int,y):
    """This is a docstring."""
    def sub(x: int, y: int):
        """This is a nested docstring.

        Args:
            x (int): Haha.
            y (int): Should error!
        """
        return x-y
    return x+y
"#;

    assert!(respects_rules(
        &mut parser,
        source_code,
        None,
        false,
        true,
        true,
        false,
        true,
        DocstringStyle::Google,
    ));

    assert!(respects_rules_through_lexing(
        source_code,
        false,
        true,
        true,
        false,
        true,
        DocstringStyle::Google,
    ));
}

#[test]
fn test_untyped_default_param() {
    let mut parser = get_parser();
    let source_code = r#"def f(a, x=2):
    """
    Hey.

    Args:
        a: _description
        x (int): _description_

    Returns:
        _type_: _description_
    """
    "Oi"
    return x
"#;
    assert!(respects_rules(
        &mut parser,
        source_code,
        None,
        false,
        true,
        true,
        true,
        true,
        DocstringStyle::Google
    ));

    assert!(respects_rules_through_lexing(
        source_code,
        false,
        true,
        true,
        true,
        true,
        DocstringStyle::Google
    ));
}

#[test]
fn test_break_on_new_line() {
    let mut parser = get_parser();
    let source_code = r#"def f(a, x=2):
    """
    Hey.

    Args:
        a: _description
        x (int): _description_
            asjkldasjkld

        askldjfasjkldf: alskdj
    """
    "Oi"
    return x
"#;
    assert!(!respects_rules(
        &mut parser,
        source_code,
        None,
        false,
        true,
        true,
        true,
        true,
        DocstringStyle::Google
    ));

    assert!(!respects_rules_through_lexing(
        source_code,
        false,
        true,
        true,
        true,
        true,
        DocstringStyle::Google
    ));

    assert!(respects_rules(
        &mut parser,
        source_code,
        None,
        true,
        true,
        true,
        true,
        true,
        DocstringStyle::Google
    ));

    assert!(respects_rules_through_lexing(
        source_code,
        true,
        true,
        true,
        true,
        true,
        DocstringStyle::Google
    ));

    let source_code = r#"def f(a, x=2):  # Comment to try and screw up the lexer.
    """
    Hey.

    Parameters
    ----------
    a
    x : int
        Hohohoh

    See also
    --------
    Something else
    """
    return x
"#;
    assert!(!respects_rules(
        &mut parser,
        source_code,
        None,
        false,
        true,
        true,
        true,
        true,
        DocstringStyle::Numpy
    ));

    assert!(!respects_rules_through_lexing(
        source_code,
        false,
        true,
        true,
        true,
        true,
        DocstringStyle::Numpy
    ));

    assert!(respects_rules(
        &mut parser,
        source_code,
        None,
        true,
        true,
        true,
        true,
        true,
        DocstringStyle::Numpy
    ));

    assert!(respects_rules_through_lexing(
        source_code,
        true,
        true,
        true,
        true,
        true,
        DocstringStyle::Numpy
    ));
}

#[test]
fn test_real_code() {
    let mut parser = get_parser();
    let source_code = r#"@dataclass
        class TimeSeries:
            def __init__(
                self,
                raw_data: pd.DataFrame,
                cnpj: str = "",
                min_date: Optional[str] = None,
                max_date: Optional[str] = None,
            ):
                self.raw_data = raw_data
                self.cnpj = cnpj

                min_date = self.raw_data[DT].min()
                max_date = self.raw_data[DT].max()

                self._min_date = min_date if min_date is not None else min_date
                self._max_date = max_date if max_date is not None else max_date

                self._calculation_cache: Dict[Tuple[str, str], float] = {}

            def filter_ts(self, from_date: str, to_date: str):
                if self._min_date == from_date and self._max_date == to_date:
                    return

                self.raw_data = self.raw_data[
                    (self.raw_data[DT] >= from_date) & (self.raw_data[DT] <= to_date)
                ].reset_index()

                self._min_date = from_date
                self._max_date = to_date

            def calculate_value_at_end(
                self,
                from_date: str,
                to_date: str,
                initial_investiment: float = 1.0,
            ) -> float:
                if (result := self._calculation_cache.get((from_date, to_date))) is not None:
                    return result * initial_investiment

                values = self.raw_data[
                    (self.raw_data[DT] >= from_date) & (self.raw_data[DT] <= to_date)
                ][VALUES]

                product: float = values.product()  # type: ignore

                self._calculation_cache[(from_date, to_date)] = product

                return product * initial_investiment

            def average(
                self,
                from_date: Optional[str] = None,
                to_date: Optional[str] = None,
            ) -> float:
                from_date = from_date if from_date is not None else self._min_date
                to_date = to_date if to_date is not None else self._max_date

                values = self.raw_data[
                    (self.raw_data[DT] >= from_date) & (self.raw_data[DT] <= to_date)
                ][VALUES]

                mean = values.mean()
                return mean  # type: ignore

            def variance(
                self,
                from_date: Optional[str] = None,
                to_date: Optional[str] = None,
            ) -> float:
                """Hello.

                Args:
                    from_date: Hohoho.
                    to_date: None,

                """
                from_date = from_date if from_date is not None else self._min_date
                to_date = to_date if to_date is not None else self._max_date

                values = self.raw_data[
                    (self.raw_data[DT] >= from_date) & (self.raw_data[DT] <= to_date)
                ][VALUES]

                var: float = values.var()  # type: ignore
                return var

            def geometric_mean(self, from_date: Optional[str], to_date: Optional[str]) -> float:
                from_date = from_date if from_date is not None else self._min_date
                to_date = to_date if to_date is not None else self._max_date

                values = self.raw_data[
                    (self.raw_data[DT] >= from_date) & (self.raw_data[DT] <= to_date)
                ][VALUES]

                product: float = values.product()  # type: ignore
                geo_mean = (product) ** (1 / len(values))

                return geo_mean

            def correlation(
                self,
                other: TimeSeries,
                from_date: Optional[str],
                to_date: Optional[str],
            ) -> float:
                from_date = from_date if from_date is not None else self._min_date
                to_date = to_date if to_date is not None else self._max_date

                values1 = self.raw_data[
                    (self.raw_data[DT] >= from_date) & (self.raw_data[DT] <= to_date)
                ][VALUES]

                values2 = other.raw_data[
                    (other.raw_data[DT] >= from_date) & (other.raw_data[DT] <= to_date)
                ][VALUES]

                return np.corrcoef(values1, values2)[0, 1]

        "#;

    assert!(respects_rules(
        &mut parser,
        source_code,
        None,
        false,
        true,
        true,
        true,
        true,
        DocstringStyle::AutoDetect
    ));

    assert!(respects_rules_through_lexing(
        source_code,
        false,
        true,
        true,
        true,
        true,
        DocstringStyle::AutoDetect
    ));
}

#[test]
fn test_real_code2() {
    let mut parser = get_parser();

    let source_code = r#"
        @final
        @staticmethod
        def _validate_subplots_kwarg(
            subplots: bool | Sequence[Sequence[str]], data: Series | DataFrame, kind: str
        ) -> bool | list[tuple[int, ...]]:
            """
            Validate the subplots parameter

            - check type and content
            - check for duplicate columns
            - check for invalid column names
            - convert column names into indices
            - add missing columns in a group of their own
            See comments in code below for more details.

            Parameters
            ----------
            subplots : subplots parameters as passed to PlotAccessor

            Returns
            -------
            validated subplots : a bool or a list of tuples of column indices. Columns
            in the same tuple will be grouped together in the resulting plot.
            """"#;

    assert!(!respects_rules(
        &mut parser,
        source_code,
        None,
        false,
        true,
        true,
        true,
        true,
        DocstringStyle::AutoDetect
    ));

    assert!(!respects_rules_through_lexing(
        source_code,
        false,
        true,
        true,
        true,
        true,
        DocstringStyle::AutoDetect
    ));
}
