//! The texts that the account table shows, in each supported language.
use vstd::prelude::*;
use crate::text::{ascii_lower_code, chars_of, decimal_text, lower_code, push_decimal, push_str};
use crate::table::str_texts;

verus! {

/// A language for the user interface.
#[derive(Clone, Copy, Debug, PartialEq, Eq, Structural)]
pub enum Language {
    English,
    Chinese,
}

/// The interface texts of one language.
#[derive(Clone, Copy, Debug)]
pub struct Messages {
    pub language: Language,
}

/// Whether a locale name (such as `zh_CN.UTF-8`) is Chinese: it starts with
/// `zh`, in any ASCII case.
pub open spec fn is_chinese_locale(locale: Seq<char>) -> bool {
    locale.len() >= 2 && ascii_lower_code(locale[0]) == ('z' as u32) && ascii_lower_code(locale[1])
        == ('h' as u32)
}

/// The interface language for a locale name: Chinese for `zh…`, English
/// otherwise.
pub fn language_for_locale(locale: &str) -> (l: Language)
    ensures
        l == (if is_chinese_locale(locale@) {
            Language::Chinese
        } else {
            Language::English
        }),
{
    let v = chars_of(locale);
    if v.len() >= 2 && lower_code(v[0]) == 'z' as u32 && lower_code(v[1]) == 'h' as u32 {
        Language::Chinese
    } else {
        Language::English
    }
}

/// The default texts (English).
pub fn messages() -> (m: Messages)
    ensures
        m == english(),
{
    Messages { language: Language::English }
}

pub open spec fn english() -> Messages {
    Messages { language: Language::English }
}

impl Messages {
    pub open spec fn hint_text(self) -> Seq<char> {
        match self.language {
            Language::English => "No accounts yet. Add an account to get started."@,
            Language::Chinese => "暂无账号，请先添加账号。"@,
        }
    }

    pub open spec fn unknown_text(self) -> Seq<char> {
        match self.language {
            Language::English => "Unknown"@,
            Language::Chinese => "未知"@,
        }
    }

    pub open spec fn na_text(self) -> Seq<char> {
        match self.language {
            Language::English => "N/A"@,
            Language::Chinese => "N/A"@,
        }
    }

    pub open spec fn subscription_text(self) -> Seq<char> {
        match self.language {
            Language::English => "Subscription"@,
            Language::Chinese => "订阅"@,
        }
    }

    pub open spec fn api_text(self) -> Seq<char> {
        match self.language {
            Language::English => "API"@,
            Language::Chinese => "API"@,
        }
    }

    pub open spec fn relogin_text(self) -> Seq<char> {
        match self.language {
            Language::English => "Re-login"@,
            Language::Chinese => "需重新登录"@,
        }
    }

    pub open spec fn error_text(self) -> Seq<char> {
        match self.language {
            Language::English => "Error"@,
            Language::Chinese => "错误"@,
        }
    }

    pub open spec fn ok_text(self) -> Seq<char> {
        match self.language {
            Language::English => "OK"@,
            Language::Chinese => "正常"@,
        }
    }

    pub open spec fn header_texts(self) -> Seq<Seq<char>> {
        match self.language {
            Language::English => seq![
                "Active"@,
                "Email"@,
                "Type"@,
                "Plan"@,
                "5h Left"@,
                "Weekly Left"@,
                "Weekly Reset"@,
                "Status"@,
            ],
            Language::Chinese => seq![
                "当前"@,
                "邮箱"@,
                "类型"@,
                "套餐"@,
                "5小时剩余"@,
                "每周剩余"@,
                "每周重置"@,
                "状态"@,
            ],
        }
    }

    /// The footer line that reports how many accounts are usable.
    pub open spec fn summary_text(self, count: nat) -> Seq<char> {
        match self.language {
            Language::English => decimal_text(count) + " usable account(s)"@,
            Language::Chinese => decimal_text(count) + " 个可用账号"@,
        }
    }

    pub fn english() -> (m: Messages)
        ensures
            m.language == Language::English,
    {
        Messages { language: Language::English }
    }

    pub fn chinese() -> (m: Messages)
        ensures
            m.language == Language::Chinese,
    {
        Messages { language: Language::Chinese }
    }

    /// Shown instead of a table when there are no accounts.
    pub fn no_usable_account_hint(&self) -> (s: &'static str)
        ensures
            s@ == self.hint_text(),
    {
        match self.language {
            Language::English => "No accounts yet. Add an account to get started.",
            Language::Chinese => "暂无账号，请先添加账号。",
        }
    }

    pub fn unknown(&self) -> (s: &'static str)
        ensures
            s@ == self.unknown_text(),
    {
        match self.language {
            Language::English => "Unknown",
            Language::Chinese => "未知",
        }
    }

    pub fn na(&self) -> (s: &'static str)
        ensures
            s@ == self.na_text(),
    {
        match self.language {
            Language::English => "N/A",
            Language::Chinese => "N/A",
        }
    }

    pub fn account_type_subscription(&self) -> (s: &'static str)
        ensures
            s@ == self.subscription_text(),
    {
        match self.language {
            Language::English => "Subscription",
            Language::Chinese => "订阅",
        }
    }

    pub fn account_type_api(&self) -> (s: &'static str)
        ensures
            s@ == self.api_text(),
    {
        match self.language {
            Language::English => "API",
            Language::Chinese => "API",
        }
    }

    pub fn status_relogin(&self) -> (s: &'static str)
        ensures
            s@ == self.relogin_text(),
    {
        match self.language {
            Language::English => "Re-login",
            Language::Chinese => "需重新登录",
        }
    }

    pub fn status_error(&self) -> (s: &'static str)
        ensures
            s@ == self.error_text(),
    {
        match self.language {
            Language::English => "Error",
            Language::Chinese => "错误",
        }
    }

    pub fn status_ok(&self) -> (s: &'static str)
        ensures
            s@ == self.ok_text(),
    {
        match self.language {
            Language::English => "OK",
            Language::Chinese => "正常",
        }
    }

    /// The column headers of the account table.
    pub fn table_headers(&self) -> (h: [&'static str; 8])
        ensures
            str_texts(h@) == self.header_texts(),
    {
        let h = match self.language {
            Language::English => [
                "Active",
                "Email",
                "Type",
                "Plan",
                "5h Left",
                "Weekly Left",
                "Weekly Reset",
                "Status",
            ],
            Language::Chinese => ["当前", "邮箱", "类型", "套餐", "5小时剩余", "每周剩余", "每周重置", "状态"],
        };
        assert(str_texts(h@) =~= self.header_texts());
        h
    }

    /// How many accounts are usable, as a sentence.
    pub fn usable_account_summary(&self, count: usize) -> (s: String)
        ensures
            s@ == self.summary_text(count as nat),
    {
        let mut s = String::new();
        push_decimal(&mut s, count as u64);
        match self.language {
            Language::English => push_str(&mut s, " usable account(s)"),
            Language::Chinese => push_str(&mut s, " 个可用账号"),
        }
        s
    }
}

} // verus!
