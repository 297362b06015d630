//! Runs translated programs on a small Hack assembler and CPU.
use std::collections::HashMap;

use stack_vm::translator::translate;

enum Line {
    A(String),
    C(String, String, String),
}

struct Cpu {
    rom: Vec<Line>,
    symbols: HashMap<String, u16>,
    ram: Vec<u16>,
    a: u16,
    d: u16,
    pc: usize,
}

impl Cpu {
    fn load(listing: &str) -> Cpu {
        let mut symbols: HashMap<String, u16> = HashMap::new();
        for (name, addr) in [("SP", 0), ("LCL", 1), ("ARG", 2), ("THIS", 3), ("THAT", 4)] {
            symbols.insert(name.to_string(), addr);
        }
        for r in 0..16 {
            symbols.insert(format!("R{}", r), r);
        }
        let mut rom = Vec::new();
        for raw in listing.lines() {
            let line = raw.trim();
            if line.is_empty() || line.starts_with("//") {
                continue;
            }
            if line.starts_with('(') && line.ends_with(')') {
                let label = &line[1..line.len() - 1];
                assert!(!symbols.contains_key(label), "label {} defined twice", label);
                symbols.insert(label.to_string(), rom.len() as u16);
            } else if let Some(rest) = line.strip_prefix('@') {
                rom.push(Line::A(rest.to_string()));
            } else {
                let (dest, rest) = match line.find('=') {
                    Some(i) => (&line[..i], &line[i + 1..]),
                    None => ("", line),
                };
                let (comp, jump) = match rest.find(';') {
                    Some(i) => (&rest[..i], &rest[i + 1..]),
                    None => (rest, ""),
                };
                rom.push(Line::C(dest.to_string(), comp.to_string(), jump.to_string()));
            }
        }
        let mut next_var: u16 = 16;
        for line in &rom {
            if let Line::A(s) = line {
                if s.parse::<u16>().is_err() && !symbols.contains_key(s) {
                    symbols.insert(s.clone(), next_var);
                    next_var += 1;
                }
            }
        }
        Cpu { rom, symbols, ram: vec![0; 32768], a: 0, d: 0, pc: 0 }
    }

    fn comp(&self, c: &str) -> u16 {
        let m = self.ram[self.a as usize & 0x7fff];
        let (a, d) = (self.a, self.d);
        match c {
            "0" => 0,
            "1" => 1,
            "-1" => 0xffff,
            "D" => d,
            "A" => a,
            "M" => m,
            "!D" => !d,
            "-D" => d.wrapping_neg(),
            "D+1" => d.wrapping_add(1),
            "A+1" => a.wrapping_add(1),
            "M+1" => m.wrapping_add(1),
            "D-1" => d.wrapping_sub(1),
            "A-1" => a.wrapping_sub(1),
            "M-1" => m.wrapping_sub(1),
            "D+A" => d.wrapping_add(a),
            "D+M" => d.wrapping_add(m),
            "D-A" => d.wrapping_sub(a),
            "D-M" => d.wrapping_sub(m),
            "A-D" => a.wrapping_sub(d),
            "M-D" => m.wrapping_sub(d),
            "D&A" => d & a,
            "D&M" => d & m,
            "D|A" => d | a,
            "D|M" => d | m,
            other => panic!("unknown computation {}", other),
        }
    }

    fn step(&mut self) {
        match &self.rom[self.pc] {
            Line::A(s) => {
                self.a = match s.parse::<u16>() {
                    Ok(n) => n,
                    Err(_) => self.symbols[s],
                };
                self.pc += 1;
            }
            Line::C(dest, comp, jump) => {
                let v = self.comp(comp);
                let addr = self.a as usize & 0x7fff;
                if dest.contains('M') {
                    self.ram[addr] = v;
                }
                if dest.contains('A') {
                    self.a = v;
                }
                if dest.contains('D') {
                    self.d = v;
                }
                let s = v as i16;
                let taken = match jump.as_str() {
                    "" => false,
                    "JGT" => s > 0,
                    "JEQ" => s == 0,
                    "JGE" => s >= 0,
                    "JLT" => s < 0,
                    "JNE" => s != 0,
                    "JLE" => s <= 0,
                    "JMP" => true,
                    other => panic!("unknown jump {}", other),
                };
                self.pc = if taken { self.a as usize } else { self.pc + 1 };
            }
        }
    }

    /// Runs until control falls off the end of the program.
    fn run_to_end(&mut self) {
        let mut steps = 0;
        while self.pc < self.rom.len() {
            self.step();
            steps += 1;
            assert!(steps < 100_000, "program does not end");
        }
    }

    /// Runs until control reaches the instruction after `label`.
    fn run_to(&mut self, label: &str) {
        let target = self.symbols[label] as usize;
        let mut steps = 0;
        loop {
            self.step();
            steps += 1;
            if self.pc == target {
                return;
            }
            assert!(steps < 100_000, "never reached {}", label);
        }
    }
}

fn program(text: &str) -> Cpu {
    let listing = translate(vec![("Test.vm".to_string(), text.to_string())], false).unwrap();
    let mut cpu = Cpu::load(&listing);
    cpu.ram[0] = 256;
    cpu
}

#[test]
fn simple_add_leaves_the_sum() {
    let mut cpu = program("push constant 7\npush constant 8\nadd");
    cpu.run_to_end();
    assert_eq!(cpu.ram[0], 257);
    assert_eq!(cpu.ram[256], 15);
}

#[test]
fn eq_of_equal_values_is_minus_one() {
    let mut cpu = program("push constant 17\npush constant 17\neq");
    cpu.run_to_end();
    assert_eq!(cpu.ram[256], 0xffff);
    assert_eq!(cpu.ram[0], 257);
}

#[test]
fn eq_of_different_values_is_zero() {
    let mut cpu = program("push constant 17\npush constant 18\neq");
    cpu.run_to_end();
    assert_eq!(cpu.ram[256], 0);
}

#[test]
fn gt_and_lt_compare_the_lower_slot_with_the_top() {
    let mut cpu = program(
        "push constant 892\npush constant 891\ngt\n\
         push constant 891\npush constant 892\ngt\n\
         push constant 891\npush constant 892\nlt\n\
         push constant 5\nneg\npush constant 3\nlt",
    );
    cpu.run_to_end();
    assert_eq!(cpu.ram[0], 260);
    assert_eq!(&cpu.ram[256..260], &[0xffff, 0, 0xffff, 0xffff]);
}

#[test]
fn pop_local_writes_through_lcl() {
    let mut cpu = program("push constant 10\npop local 0");
    cpu.ram[1] = 300;
    let before = cpu.ram.clone();
    cpu.run_to_end();
    assert_eq!(cpu.ram[300], 10);
    assert_eq!(cpu.ram[0], 256);
    for k in 0..cpu.ram.len() {
        if k != 300 && k != 13 && k != 256 {
            assert_eq!(cpu.ram[k], before[k], "address {}", k);
        }
    }
}

#[test]
fn push_then_pop_to_the_same_place_changes_nothing_else() {
    let mut cpu = program("push argument 2\npop argument 2\npush temp 3\npop temp 3\npush pointer 1\npop pointer 1");
    cpu.ram[2] = 400;
    cpu.ram[402] = 1234;
    cpu.ram[8] = 55;
    cpu.ram[4] = 3000;
    let before = cpu.ram.clone();
    cpu.run_to_end();
    for k in 0..cpu.ram.len() {
        if k != 13 && k != 256 {
            assert_eq!(cpu.ram[k], before[k], "address {}", k);
        }
    }
}

#[test]
fn statics_round_trip_within_a_unit_and_stay_apart_across_units() {
    let listing = translate(
        vec![
            ("A.vm".to_string(), "push constant 11\npop static 0\n".to_string()),
            ("B.vm".to_string(), "push constant 22\npop static 0\n".to_string()),
            ("C.vm".to_string(), "push static 0\n".to_string()),
        ],
        false,
    )
    .unwrap();
    let listing = format!("{}// A again\n@A.0\nD=M\n@SP\nA=M\nM=D\n@SP\nM=M+1\n", listing);
    let mut cpu = Cpu::load(&listing);
    cpu.ram[0] = 256;
    cpu.run_to_end();
    let a = cpu.symbols["A.0"] as usize;
    let b = cpu.symbols["B.0"] as usize;
    assert_ne!(a, b);
    assert_eq!(cpu.ram[a], 11);
    assert_eq!(cpu.ram[b], 22);
    assert_eq!(cpu.ram[257], 11);
}

#[test]
fn function_entry_zeroes_locals() {
    let mut cpu = program("function Foo.bar 3");
    cpu.ram[256] = 9;
    cpu.ram[257] = 9;
    cpu.ram[258] = 9;
    cpu.run_to_end();
    assert_eq!(cpu.ram[0], 259);
    assert_eq!(&cpu.ram[256..259], &[0, 0, 0]);
}

#[test]
fn call_and_return_restore_the_caller() {
    let mut cpu = program(
        "push constant 3\npush constant 4\ncall Math.add 2\ngoto END\n\
         function Math.add 1\npush argument 0\npush argument 1\nadd\nreturn\n\
         label END",
    );
    cpu.ram[1] = 100;
    cpu.ram[2] = 200;
    cpu.ram[3] = 3000;
    cpu.ram[4] = 4000;
    cpu.run_to("Test$END");
    assert_eq!(cpu.ram[0], 257);
    assert_eq!(cpu.ram[256], 7);
    assert_eq!(&cpu.ram[1..5], &[100, 200, 3000, 4000]);
}

#[test]
fn bootstrap_enters_sys_init_with_a_frame() {
    let listing = translate(
        vec![("Sys.vm".to_string(), "function Sys.init 0\npush constant 0\nreturn".to_string())],
        true,
    )
    .unwrap();
    let mut cpu = Cpu::load(&listing);
    cpu.run_to("Sys.init");
    assert_eq!(cpu.ram[0], 261);
    assert_eq!(cpu.ram[1], 261);
    assert_eq!(cpu.ram[2], 256);
    cpu.run_to("__RET_1");
    assert_eq!(cpu.ram[0], 257);
}
