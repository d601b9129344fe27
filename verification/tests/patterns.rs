use dbtools::classify::{classify, TypeTag};
use dbtools::dump::{preprocess_sql, tokenize};
use dbtools::files::table_name_of;
use dbtools::timestamp::decode;
use regex::{NoExpand, Regex};

struct Rng(u64);

impl Rng {
    fn next(&mut self) -> u64 {
        self.0 = self.0.wrapping_mul(6364136223846793005).wrapping_add(1442695040888963407);
        self.0 >> 33
    }

    fn text(&mut self, alphabet: &[&str], longest: u64) -> String {
        let n = self.next() % (longest + 1);
        let mut s = String::new();
        for _ in 0..n {
            s.push_str(alphabet[(self.next() % alphabet.len() as u64) as usize]);
        }
        s
    }
}

#[test]
fn classifier_agrees_with_the_patterns_on_many_values() {
    let oid = Regex::new(r"(?s)^ObjectId\(.*\)$").unwrap();
    let date = Regex::new(r"^[0-9]{4}-[0-9]{2}-[0-9]{2}").unwrap();
    let number = Regex::new(r"^[0-9]+").unwrap();
    let truth = Regex::new(r"^(?i:true|false)$").unwrap();
    let alphabet = [
        "ObjectId(", ")", "2016", "-", "01", "1", "true", "TRUE", "False", "fals", "e", "x", " ", "T",
        "O", "(", "9", "0-", "\n",
    ];
    let mut rng = Rng(1);
    for _ in 0..20000 {
        let s = rng.text(&alphabet, 6);
        let expected = if oid.is_match(&s) {
            TypeTag::ObjectIdRef
        } else if date.is_match(&s) {
            TypeTag::Timestamp
        } else if number.is_match(&s) {
            TypeTag::Number
        } else if truth.is_match(&s) {
            TypeTag::Boolean
        } else {
            TypeTag::Text
        };
        assert_eq!(classify(&s), expected, "{:?}", s);
    }
}

#[test]
fn decode_agrees_with_the_pattern_on_many_values() {
    let re = Regex::new(
        r"^([0-9]{4}-[0-9]{2}-[0-9]{2})[T ]([0-9]{2}:[0-9]{2}:[0-9]{2})(?:\.([0-9]*))?",
    )
    .unwrap();
    let alphabet = ["2016-01-01", "T", " ", "10:20:30", ".", "1", "23", "456", "Z", "+0000", ":", "-", "x"];
    let mut rng = Rng(2);
    for _ in 0..20000 {
        let s = rng.text(&alphabet, 7);
        let expected = match re.captures(&s) {
            Some(c) => {
                let mut ms: String = c.get(3).map_or("", |m| m.as_str()).chars().take(3).collect();
                while ms.len() < 3 {
                    ms.push('0');
                }
                format!("{}T{}.{}", &c[1], &c[2], ms)
            }
            None => String::new(),
        };
        assert_eq!(decode(&s), expected, "{:?}", s);
    }
}

#[test]
fn rewrites_agree_with_the_patterns_on_many_texts() {
    let steps = [
        (Regex::new(r"VALUES \(").unwrap(), "VALUE (\n"),
        (Regex::new(",").unwrap(), ",\n"),
        (Regex::new(r"\),").unwrap(), "\nINSERT INTO `null` VALUES (\n"),
        (Regex::new(r"\(").unwrap(), ""),
        (Regex::new("\n\n").unwrap(), "\n"),
    ];
    let alphabet = ["VALUES (", "VALUES", " ", "(", ")", ",", "\n", "1", "'a'", "INSERT INTO t ", ";", "\r"];
    let mut rng = Rng(3);
    for _ in 0..20000 {
        let s = rng.text(&alphabet, 12);
        let mut text = s.clone();
        for (pattern, with) in &steps {
            text = pattern.replace_all(&text, NoExpand(with)).to_string();
        }
        let expected: Vec<String> = text
            .split('\n')
            .map(|l| l.strip_suffix('\r').unwrap_or(l))
            .filter(|l| !l.is_empty())
            .map(|l| l.to_string())
            .collect();
        assert_eq!(preprocess_sql(&s), expected, "{:?}", s);
    }
}

#[test]
fn values_agree_with_the_patterns_on_many_lines() {
    let number = Regex::new(r"^[0-9.]+").unwrap();
    let span = Regex::new(r"'([\w\s]+)'").unwrap();
    let literal = Regex::new(r"TRUE|FALSE|NULL").unwrap();
    let stamp = Regex::new(r"'([0-9]{4}-[0-9]{2}-[0-9]{2})\s([0-9]{2}:[0-9]{2}:[0-9]{2})'").unwrap();
    let alphabet = [
        "'", "a", " ", "1", ".", "-", "TRUE", "FALSE", "NULL", "TR", "UE", "NU", "LL", "'2016-01-01 10:20:30'",
        "2016-01-01", "10:20:30", ",", "\t", "_", "é",
    ];
    let mut rng = Rng(4);
    for _ in 0..20000 {
        let s = rng.text(&alphabet, 10);
        let mut expected: Vec<String> = Vec::new();
        for m in number.find_iter(&s) {
            expected.push(m.as_str().to_string());
        }
        for c in span.captures_iter(&s) {
            expected.push(c[1].to_string());
        }
        for m in literal.find_iter(&s) {
            expected.push(m.as_str().to_lowercase());
        }
        for c in stamp.captures_iter(&s) {
            expected.push(format!("{}T{}.000Z", &c[1], &c[2]));
        }
        assert_eq!(tokenize(&vec![s.clone()], true).values, expected, "{:?}", s);
    }
}

#[test]
fn column_names_agree_with_the_patterns_on_many_lines() {
    let ident = Regex::new(r"^[`a-zA-Z0-9_]+").unwrap();
    let noise = Regex::new(r"CREATE|ENGINE|INSERT|PRIMARY|LOCK").unwrap();
    let alphabet = [
        "`", "a", "_", "1", " ", "CREATE", "ENGINE", "INSERT", "PRIMARY", "LOCK", "CRE", "ATE", "LO", "CK",
        "PRIM", "ARY", "-", "é",
    ];
    let mut rng = Rng(5);
    for _ in 0..20000 {
        let s = rng.text(&alphabet, 8);
        let mut expected: Vec<String> = Vec::new();
        if let Some(m) = ident.find(&s) {
            let bare = m.as_str().replace('`', "");
            let name = noise.replace_all(&bare, "").to_string();
            if !name.is_empty() {
                expected.push(name);
            }
        }
        let lines = vec!["CREATE TABLE".to_string(), s.clone()];
        assert_eq!(tokenize(&lines, false).columns, expected, "{:?}", s);
    }
}

#[test]
fn markers_agree_with_the_patterns_on_many_lines() {
    let table = Regex::new("CREATE TABLE|UNLOCK TABLES").unwrap();
    let insert = Regex::new("INSERT INTO").unwrap();
    let alphabet = ["CREATE TABLE", "UNLOCK TABLES", "INSERT INTO", "CREATE", " TABLE", "INSERT", " INTO", "x", " ", "7"];
    let mut rng = Rng(6);
    for _ in 0..5000 {
        let lines: Vec<String> = (0..4).map(|_| rng.text(&alphabet, 4)).collect();
        let mut header = false;
        let mut expected = 0;
        for line in &lines {
            if table.is_match(line) {
                header = true;
            }
            if insert.is_match(line) {
                header = false;
            }
            if !header && line.starts_with('7') {
                expected += 1;
            }
        }
        assert_eq!(tokenize(&lines, false).values.len(), expected, "{:?}", lines);
    }
}

#[test]
fn table_names_agree_with_the_pattern_on_many_paths() {
    let re = Regex::new(r"(?s)(.*)\..{3,4}").unwrap();
    let alphabet = [".", "a", "bc", "/", "csv", "json", "..", "x"];
    let mut rng = Rng(7);
    for _ in 0..20000 {
        let s = rng.text(&alphabet, 8);
        let mut expected = String::new();
        for c in re.captures_iter(&s) {
            expected = c[1].to_string();
        }
        assert_eq!(table_name_of(&s), expected, "{:?}", s);
    }
}
