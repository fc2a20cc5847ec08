use vstd::prelude::*;

verus! {

/// How much the analyzer reports.
#[derive(Debug, Clone, Copy, PartialEq, Eq, Structural)]
pub enum LogLevel {
    Normal,
    Verbose,
}

/// How important a log record is.
#[derive(Debug, Clone, Copy, PartialEq, Eq, Structural)]
pub enum LogType {
    Minimal,
    Necessary,
    Additional,
}

/// The settings of one run of the analyzer.
#[derive(Debug)]
pub struct RunConfiguration {
    pub contract_file_name: String,
    pub result_file_name: String,
    pub export_decompositions: bool,
    pub export_automaton: bool,
    pub continue_on_conflict: bool,
    pub export_min_automaton: bool,
    pub use_prunning: bool,
    pub decompositions_file_name: String,
    pub automaton_file_name: String,
    pub min_automaton_file_name: String,
    pub log_level: LogLevel,
    pub global_log_filename: String,
    pub test: bool,
}

impl Clone for RunConfiguration {
    fn clone(&self) -> (res: Self)
        ensures
            res == *self,
    {
        RunConfiguration {
            contract_file_name: self.contract_file_name.clone(),
            result_file_name: self.result_file_name.clone(),
            export_decompositions: self.export_decompositions,
            export_automaton: self.export_automaton,
            continue_on_conflict: self.continue_on_conflict,
            export_min_automaton: self.export_min_automaton,
            use_prunning: self.use_prunning,
            decompositions_file_name: self.decompositions_file_name.clone(),
            automaton_file_name: self.automaton_file_name.clone(),
            min_automaton_file_name: self.min_automaton_file_name.clone(),
            log_level: self.log_level,
            global_log_filename: self.global_log_filename.clone(),
            test: self.test,
        }
    }
}

impl RunConfiguration {
    /// Whether every setting has its initial value: no file names, pruning on, all
    /// else off.
    pub open spec fn is_initial(&self) -> bool {
        &&& self.contract_file_name@.len() == 0
        &&& self.result_file_name@.len() == 0
        &&& !self.export_decompositions
        &&& !self.export_automaton
        &&& !self.continue_on_conflict
        &&& !self.export_min_automaton
        &&& self.use_prunning
        &&& self.decompositions_file_name@.len() == 0
        &&& self.automaton_file_name@.len() == 0
        &&& self.min_automaton_file_name@.len() == 0
        &&& self.log_level == LogLevel::Normal
        &&& self.global_log_filename@.len() == 0
        &&& !self.test
    }

    pub fn new() -> (c: Self)
        ensures
            c.is_initial(),
    {
        RunConfiguration {
            contract_file_name: String::new(),
            result_file_name: String::new(),
            export_decompositions: false,
            export_automaton: false,
            continue_on_conflict: false,
            export_min_automaton: false,
            use_prunning: true,
            decompositions_file_name: String::new(),
            automaton_file_name: String::new(),
            min_automaton_file_name: String::new(),
            log_level: LogLevel::Normal,
            global_log_filename: String::new(),
            test: false,
        }
    }

    pub fn contract_file_name(&self) -> (r: &str)
        ensures
            r@ == self.contract_file_name@,
    {
        self.contract_file_name.as_str()
    }

    pub fn result_file_name(&self) -> (r: &str)
        ensures
            r@ == self.result_file_name@,
    {
        self.result_file_name.as_str()
    }

    pub fn decompositions_file_name(&self) -> (r: &str)
        ensures
            r@ == self.decompositions_file_name@,
    {
        self.decompositions_file_name.as_str()
    }

    pub fn automaton_file_name(&self) -> (r: &str)
        ensures
            r@ == self.automaton_file_name@,
    {
        self.automaton_file_name.as_str()
    }

    pub fn min_automaton_file_name(&self) -> (r: &str)
        ensures
            r@ == self.min_automaton_file_name@,
    {
        self.min_automaton_file_name.as_str()
    }

    pub fn global_log_filename(&self) -> (r: &str)
        ensures
            r@ == self.global_log_filename@,
    {
        self.global_log_filename.as_str()
    }

    pub fn is_export_decompositions(&self) -> (r: bool)
        ensures
            r == self.export_decompositions,
    {
        self.export_decompositions
    }

    pub fn is_export_automaton(&self) -> (r: bool)
        ensures
            r == self.export_automaton,
    {
        self.export_automaton
    }

    pub fn is_continue_on_conflict(&self) -> (r: bool)
        ensures
            r == self.continue_on_conflict,
    {
        self.continue_on_conflict
    }

    pub fn is_export_min_automaton(&self) -> (r: bool)
        ensures
            r == self.export_min_automaton,
    {
        self.export_min_automaton
    }

    pub fn is_use_prunning(&self) -> (r: bool)
        ensures
            r == self.use_prunning,
    {
        self.use_prunning
    }

    pub fn is_test(&self) -> (r: bool)
        ensures
            r == self.test,
    {
        self.test
    }

    pub fn log_level(&self) -> (r: LogLevel)
        ensures
            r == self.log_level,
    {
        self.log_level
    }

    pub fn set_contract_file_name(&mut self, name: String)
        ensures
            *final(self) == (RunConfiguration { contract_file_name: name, ..*old(self) }),
    {
        self.contract_file_name = name;
    }

    pub fn set_result_file_name(&mut self, name: String)
        ensures
            *final(self) == (RunConfiguration { result_file_name: name, ..*old(self) }),
    {
        self.result_file_name = name;
    }

    pub fn set_global_log_filename(&mut self, name: String)
        ensures
            *final(self) == (RunConfiguration { global_log_filename: name, ..*old(self) }),
    {
        self.global_log_filename = name;
    }

    pub fn set_automaton_file_name(&mut self, name: String)
        ensures
            *final(self) == (RunConfiguration { automaton_file_name: name, ..*old(self) }),
    {
        self.automaton_file_name = name;
    }

    pub fn set_min_automaton_file_name(&mut self, name: String)
        ensures
            *final(self) == (RunConfiguration { min_automaton_file_name: name, ..*old(self) }),
    {
        self.min_automaton_file_name = name;
    }

    pub fn set_decompositions_file_name(&mut self, name: String)
        ensures
            *final(self) == (RunConfiguration { decompositions_file_name: name, ..*old(self) }),
    {
        self.decompositions_file_name = name;
    }

    pub fn set_export_decompositions(&mut self, value: bool)
        ensures
            *final(self) == (RunConfiguration { export_decompositions: value, ..*old(self) }),
    {
        self.export_decompositions = value;
    }

    pub fn set_export_automaton(&mut self, value: bool)
        ensures
            *final(self) == (RunConfiguration { export_automaton: value, ..*old(self) }),
    {
        self.export_automaton = value;
    }

    pub fn set_continue_on_conflict(&mut self, value: bool)
        ensures
            *final(self) == (RunConfiguration { continue_on_conflict: value, ..*old(self) }),
    {
        self.continue_on_conflict = value;
    }

    pub fn set_export_min_automaton(&mut self, value: bool)
        ensures
            *final(self) == (RunConfiguration { export_min_automaton: value, ..*old(self) }),
    {
        self.export_min_automaton = value;
    }

    pub fn set_use_prunning(&mut self, value: bool)
        ensures
            *final(self) == (RunConfiguration { use_prunning: value, ..*old(self) }),
    {
        self.use_prunning = value;
    }

    pub fn set_test(&mut self, value: bool)
        ensures
            *final(self) == (RunConfiguration { test: value, ..*old(self) }),
    {
        self.test = value;
    }

    pub fn set_log_level(&mut self, level: LogLevel)
        ensures
            *final(self) == (RunConfiguration { log_level: level, ..*old(self) }),
    {
        self.log_level = level;
    }

}

impl Default for RunConfiguration {
    fn default() -> (c: Self)
        ensures
            c.is_initial(),
    {
        Self::new()
    }
}

} // verus!
